use vstd::prelude::*;

verus! {

/// The logical type of one column, deciding which kind of value the
/// synthesizer produces for it.
#[derive(Clone, PartialEq, Eq, Structural, Debug)]
pub enum DType {
    Boolean,
    Int,
    Float,
    Long,
    Double,
    String,
    Age,
    Name,
    City,
    Phone,
    Date,
    DateTime,
    Latitude,
    Longitude,
}

/// One column of the dataset: its name and logical type.
#[derive(Clone, Debug)]
pub struct Column {
    pub name: String,
    pub dtype: DType,
}

/// The dataset a schema describes: its name and its ordered columns.
#[derive(Clone, Debug)]
pub struct Dataset {
    pub name: String,
    pub columns: Vec<Column>,
}

/// A column schema, loaded once per job and read-only thereafter.
#[derive(Clone, Debug)]
pub struct Schema {
    pub dataset: Dataset,
}

} // verus!
