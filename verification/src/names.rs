use vstd::prelude::*;

verus! {

/// The character for one decimal digit.
pub open spec fn digit_char(d: int) -> char
    recommends
        0 <= d < 10,
{
    ((48 + d) as u8) as char
}

/// The decimal representation of `n`, most significant digit first.
pub open spec fn dec_rep(n: nat) -> Seq<char>
    decreases n,
{
    if n < 10 {
        seq![digit_char(n as int)]
    } else {
        dec_rep(n / 10).push(digit_char((n % 10) as int))
    }
}

/// The decimal representation of `n`, zero-padded on the left to at least
/// two digits.
pub open spec fn pad2(n: nat) -> Seq<char> {
    if n < 10 {
        seq!['0'] + dec_rep(n)
    } else {
        dec_rep(n)
    }
}

/// The name of one split file: `output_<table>_<records>_<index:02>.csv`.
pub open spec fn split_file_name_spec(table: Seq<char>, num_records: nat, idx: nat) -> Seq<char> {
    "output_"@ + table + "_"@ + dec_rep(num_records) + "_"@ + pad2(idx) + ".csv"@
}

/// The name of a batched archive:
/// `output_<table>_<records>_<start:02>_<end:02>.csv.zip`, where the two
/// indices are the inclusive bounds of the batch's split range.
pub open spec fn batch_archive_name_spec(
    table: Seq<char>,
    num_records: nat,
    start_idx: nat,
    end_idx: nat,
) -> Seq<char> {
    "output_"@ + table + "_"@ + dec_rep(num_records) + "_"@ + pad2(start_idx) + "_"@ + pad2(
        end_idx,
    ) + ".csv.zip"@
}

/// The name of a single-file archive: the split file's own name plus the
/// archive suffix.
pub open spec fn single_archive_name_spec(file_name: Seq<char>) -> Seq<char> {
    file_name + ".zip"@
}

/// A file name joined onto a directory.
pub open spec fn join_path_spec(dir: Seq<char>, name: Seq<char>) -> Seq<char> {
    dir + "/"@ + name
}

proof fn lemma_dec_rep_len(n: nat)
    ensures
        dec_rep(n).len() >= 1,
    decreases n,
{
    if n >= 10 {
        lemma_dec_rep_len(n / 10);
    }
}

proof fn lemma_dec_rep_lead(n: nat)
    requires
        n >= 1,
    ensures
        dec_rep(n)[0] != '0',
    decreases n,
{
    if n < 10 {
        assert(digit_char(n as int) != '0');
    } else {
        lemma_dec_rep_len(n / 10);
        lemma_dec_rep_lead(n / 10);
        assert(dec_rep(n)[0] == dec_rep(n / 10)[0]);
    }
}

proof fn lemma_dec_rep_injective(m: nat, n: nat)
    requires
        dec_rep(m) == dec_rep(n),
    ensures
        m == n,
    decreases m + n,
{
    lemma_dec_rep_len(m);
    lemma_dec_rep_len(n);
    if m < 10 && n < 10 {
        assert(dec_rep(m)[0] == digit_char(m as int));
        assert(dec_rep(n)[0] == digit_char(n as int));
        assert((48 + m as int) as u8 as char == (48 + n as int) as u8 as char);
        assert(m == n);
    } else if m < 10 && n >= 10 {
        lemma_dec_rep_len(n / 10);
        assert(dec_rep(n).len() >= 2);
        assert(false);
    } else if m >= 10 && n < 10 {
        lemma_dec_rep_len(m / 10);
        assert(dec_rep(m).len() >= 2);
        assert(false);
    } else {
        assert(dec_rep(m).last() == digit_char((m % 10) as int));
        assert(dec_rep(n).last() == digit_char((n % 10) as int));
        assert(m % 10 == n % 10);
        assert(dec_rep(m).drop_last() =~= dec_rep(m / 10));
        assert(dec_rep(n).drop_last() =~= dec_rep(n / 10));
        lemma_dec_rep_injective(m / 10, n / 10);
    }
}

proof fn lemma_pad2_injective(m: nat, n: nat)
    requires
        pad2(m) == pad2(n),
    ensures
        m == n,
{
    lemma_dec_rep_len(m);
    lemma_dec_rep_len(n);
    if m < 10 && n < 10 {
        assert(pad2(m)[1] == digit_char(m as int));
        assert(pad2(n)[1] == digit_char(n as int));
        assert((48 + m as int) as u8 as char == (48 + n as int) as u8 as char);
        assert(m == n);
    } else if m < 10 && n >= 10 {
        lemma_dec_rep_lead(n);
        assert(pad2(m)[0] == '0');
        assert(pad2(n)[0] == dec_rep(n)[0]);
        assert(false);
    } else if m >= 10 && n < 10 {
        lemma_dec_rep_lead(m);
        assert(pad2(n)[0] == '0');
        assert(pad2(m)[0] == dec_rep(m)[0]);
        assert(false);
    } else {
        lemma_dec_rep_injective(m, n);
    }
}

/// Two different split indices never share a file name: the zero-padded
/// index at the name's tail tells them apart.
pub proof fn lemma_split_file_names_injective(table: Seq<char>, num_records: nat, i: nat, j: nat)
    requires
        i != j,
    ensures
        split_file_name_spec(table, num_records, i) != split_file_name_spec(table, num_records, j),
{
    let prefix = "output_"@ + table + "_"@ + dec_rep(num_records) + "_"@;
    let a = split_file_name_spec(table, num_records, i);
    let b = split_file_name_spec(table, num_records, j);
    if a == b {
        assert(a.len() == prefix.len() + pad2(i).len() + ".csv"@.len());
        assert(b.len() == prefix.len() + pad2(j).len() + ".csv"@.len());
        assert(pad2(i).len() == pad2(j).len());
        assert(pad2(i) =~= pad2(j)) by {
            assert forall|t: int| 0 <= t < pad2(i).len() implies pad2(i)[t] == pad2(j)[t] by {
                assert(a[prefix.len() + t] == pad2(i)[t]);
                assert(b[prefix.len() + t] == pad2(j)[t]);
            }
        }
        lemma_pad2_injective(i, j);
        assert(false);
    }
}

fn push_digit(s: &mut String, d: u64)
    requires
        d < 10,
    ensures
        final(s)@ == old(s)@ + seq![digit_char(d as int)],
{
    if d == 0 {
        proof {
            reveal_strlit("0");
        }
        s.append("0");
    } else if d == 1 {
        proof {
            reveal_strlit("1");
        }
        s.append("1");
    } else if d == 2 {
        proof {
            reveal_strlit("2");
        }
        s.append("2");
    } else if d == 3 {
        proof {
            reveal_strlit("3");
        }
        s.append("3");
    } else if d == 4 {
        proof {
            reveal_strlit("4");
        }
        s.append("4");
    } else if d == 5 {
        proof {
            reveal_strlit("5");
        }
        s.append("5");
    } else if d == 6 {
        proof {
            reveal_strlit("6");
        }
        s.append("6");
    } else if d == 7 {
        proof {
            reveal_strlit("7");
        }
        s.append("7");
    } else if d == 8 {
        proof {
            reveal_strlit("8");
        }
        s.append("8");
    } else {
        proof {
            reveal_strlit("9");
        }
        s.append("9");
    }
    proof {
        assert(final(s)@ =~= old(s)@ + seq![digit_char(d as int)]);
    }
}

/// Appends the decimal representation of `n` to `s`.
pub fn push_decimal(s: &mut String, n: u64)
    ensures
        final(s)@ == old(s)@ + dec_rep(n as nat),
    decreases n,
{
    if n < 10 {
        push_digit(s, n);
    } else {
        push_decimal(s, n / 10);
        push_digit(s, n % 10);
        proof {
            assert(final(s)@ =~= old(s)@ + dec_rep(n as nat));
        }
    }
}

/// Appends the decimal representation of `n`, zero-padded to at least two
/// digits, to `s`.
pub fn push_pad2(s: &mut String, n: u64)
    ensures
        final(s)@ == old(s)@ + pad2(n as nat),
{
    if n < 10 {
        proof {
            reveal_strlit("0");
        }
        s.append("0");
        push_digit(s, n);
        proof {
            assert("0"@ =~= seq!['0']);
            assert(final(s)@ =~= old(s)@ + pad2(n as nat));
        }
    } else {
        push_decimal(s, n);
    }
}

/// Builds the name of the split file with the given index.
pub fn split_file_name(table: &str, num_records: u64, idx: usize) -> (r: String)
    ensures
        r@ == split_file_name_spec(table@, num_records as nat, idx as nat),
{
    let mut s = String::new();
    s.append("output_");
    s.append(table);
    s.append("_");
    push_decimal(&mut s, num_records);
    s.append("_");
    push_pad2(&mut s, idx as u64);
    s.append(".csv");
    proof {
        assert(s@ =~= split_file_name_spec(table@, num_records as nat, idx as nat));
    }
    s
}

/// Builds the name of the archive holding the inclusive range
/// `start_idx ..= end_idx` of split files.
pub fn batch_archive_name(table: &str, num_records: u64, start_idx: usize, end_idx: usize) -> (r:
    String)
    ensures
        r@ == batch_archive_name_spec(table@, num_records as nat, start_idx as nat, end_idx as nat),
{
    let mut s = String::new();
    s.append("output_");
    s.append(table);
    s.append("_");
    push_decimal(&mut s, num_records);
    s.append("_");
    push_pad2(&mut s, start_idx as u64);
    s.append("_");
    push_pad2(&mut s, end_idx as u64);
    s.append(".csv.zip");
    proof {
        assert(s@ =~= batch_archive_name_spec(
            table@,
            num_records as nat,
            start_idx as nat,
            end_idx as nat,
        ));
    }
    s
}

/// Builds the name of the archive holding one split file on its own.
pub fn single_archive_name(file_name: &str) -> (r: String)
    ensures
        r@ == single_archive_name_spec(file_name@),
{
    let mut s = String::new();
    s.append(file_name);
    s.append(".zip");
    proof {
        assert(s@ =~= single_archive_name_spec(file_name@));
    }
    s
}

/// Joins a file name onto a directory.
pub fn join_path(dir: &str, name: &str) -> (r: String)
    ensures
        r@ == join_path_spec(dir@, name@),
{
    let mut s = String::new();
    s.append(dir);
    s.append("/");
    s.append(name);
    proof {
        assert(s@ =~= join_path_spec(dir@, name@));
    }
    s
}

} // verus!
