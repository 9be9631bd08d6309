use vstd::prelude::*;
use vstd::utf8::encode_utf8;
use std::io::Cursor;
use std::io::Write;
use zip::ZipWriter;
use crate::errors::{DataGenError, DataGenResult};

verus! {

/// The most bytes one archive entry may hold for its success to be owed.
/// zip refuses an entry that grows past four gibibytes unless it was marked
/// large up front; the bound stays comfortably below that mark so that
/// whatever growth the Deflate encoding adds on incompressible data cannot
/// reach it either.
pub const MAX_ENTRY_BYTES: u64 = 0xFF00_0000;

/// The most bytes an entry name may hold: zip stores a name's length in
/// sixteen bits and refuses a longer one.
pub const MAX_NAME_BYTES: usize = 0xFFFF;

/// An in-memory archive writer: zip's `ZipWriter` over a byte buffer.
/// Opaque to verification; everything known of it is said by `zip_entries`
/// and the trusted operations below.
#[verifier::external_body]
pub struct ArchiveWriter {
    inner: ZipWriter<Cursor<Vec<u8>>>,
}

/// The entries an archive writer holds so far: for each, its name and the
/// bytes written to it.
pub uninterp spec fn zip_entries(w: ArchiveWriter) -> Seq<(Seq<char>, Seq<u8>)>;

/// Whether the writer's most recently started entry is still open to take
/// bytes. Writing is owed success only into an open entry: a failed attempt
/// to start the next entry, for one, leaves the writer with none open.
pub uninterp spec fn zip_entry_open(w: ArchiveWriter) -> bool;

/// The entries that decompressing a finished archive yields: for each, its
/// name and its extracted bytes.
pub uninterp spec fn unzip_of(bytes: Seq<u8>) -> Seq<(Seq<char>, Seq<u8>)>;

/// Relies on zip's `ZipWriter::new`: a freshly created writer holds no
/// entries.
#[verifier::external_body]
fn archive_writer_new() -> (w: ArchiveWriter)
    ensures
        zip_entries(w) == Seq::<(Seq<char>, Seq<u8>)>::empty(),
        !zip_entry_open(w),
{
    ArchiveWriter { inner: ZipWriter::new(Cursor::new(Vec::new())) }
}

/// Relies on zip's `ZipWriter::start_file`: on success a new, still empty
/// entry with the given name stands at the end of the archive. The entry is
/// created with Deflate compression at maximum level and Unix permission
/// bits `0o644`. Writing to an in-memory buffer, the call fails only for a
/// name already in the archive, a name longer than the format's sixteen-bit
/// length field, or an open entry too large to close; so it is owed success
/// when the name is fresh and short enough and every entry so far is small
/// enough.
#[verifier::external_body]
fn archive_start_entry(w: &mut ArchiveWriter, name: &str) -> (r: Result<(), String>)
    ensures
        r is Ok ==> zip_entries(*final(w)) == zip_entries(*old(w)).push(
            (name@, Seq::<u8>::empty()),
        ) && zip_entry_open(*final(w)),
        ({
            &&& forall|j: int|
                0 <= j < zip_entries(*old(w)).len() ==> (#[trigger] zip_entries(*old(w))[j]).0
                    != name@
            &&& encode_utf8(name@).len() <= MAX_NAME_BYTES
            &&& forall|j: int|
                0 <= j < zip_entries(*old(w)).len() ==> (#[trigger] zip_entries(*old(w))[j]).1.len()
                    <= MAX_ENTRY_BYTES
        }) ==> r is Ok,
{
    let options = zip::write::SimpleFileOptions::default().compression_method(
        zip::CompressionMethod::Deflated,
    ).compression_level(Some(9)).unix_permissions(0o644);
    w.inner.start_file(name, options).map_err(|e| format!("{}", e))
}

/// Relies on the zip writer's `std::io::Write::write_all`: on success the
/// bytes are appended to the entry most recently started, which must still
/// be open. Writing to an in-memory buffer, the call then fails only when
/// the entry would grow past the four-gibibyte mark without having been
/// marked large; so it is owed success while the entry stays small enough.
#[verifier::external_body]
fn archive_append(w: &mut ArchiveWriter, data: &Vec<u8>) -> (r: Result<(), String>)
    requires
        zip_entries(*old(w)).len() > 0,
        zip_entry_open(*old(w)),
    ensures
        r is Ok ==> zip_entries(*final(w)) == zip_entries(*old(w)).update(
            zip_entries(*old(w)).len() - 1,
            (zip_entries(*old(w)).last().0, zip_entries(*old(w)).last().1 + data@),
        ) && zip_entry_open(*final(w)),
        zip_entries(*old(w)).last().1.len() + data@.len() <= MAX_ENTRY_BYTES ==> r is Ok,
{
    w.inner.write_all(data.as_slice()).map_err(|e| format!("{}", e))
}

/// Relies on zip's `ZipWriter::finish`: on success the returned bytes are a
/// finished archive whose decompressed contents are exactly the entries that
/// were written to the writer. Writing to an in-memory buffer, finishing
/// fails only when the still open entry is too large to close; so a writer
/// whose entries all stayed small enough is owed success.
#[verifier::external_body]
fn archive_finish(w: ArchiveWriter) -> (r: Result<Vec<u8>, String>)
    ensures
        r is Ok ==> unzip_of(r->Ok_0@) == zip_entries(w),
        (forall|j: int|
            0 <= j < zip_entries(w).len() ==> (#[trigger] zip_entries(w)[j]).1.len()
                <= MAX_ENTRY_BYTES) ==> r is Ok,
{
    match w.inner.finish() {
        Ok(cursor) => Ok(cursor.into_inner()),
        Err(e) => Err(format!("{}", e)),
    }
}

/// The archive entries a batch yields: one per member file that was present
/// when archiving ran, in member order, holding the member's full contents.
/// An absent member (`None`) is tolerated and skipped.
pub open spec fn present_entries(names: Seq<Seq<char>>, contents: Seq<Option<Seq<u8>>>) -> Seq<
    (Seq<char>, Seq<u8>),
>
    recommends
        names.len() == contents.len(),
    decreases names.len(),
{
    if names.len() == 0 {
        Seq::empty()
    } else {
        let rest = present_entries(names.drop_last(), contents.drop_last());
        if contents.last() is Some {
            rest.push((names.last(), contents.last()->0))
        } else {
            rest
        }
    }
}

proof fn lemma_present_entries_take_step(
    names: Seq<Seq<char>>,
    contents: Seq<Option<Seq<u8>>>,
    i: int,
)
    requires
        names.len() == contents.len(),
        0 <= i < names.len(),
    ensures
        present_entries(names.take(i + 1), contents.take(i + 1)) == if contents[i] is Some {
            present_entries(names.take(i), contents.take(i)).push((names[i], contents[i]->0))
        } else {
            present_entries(names.take(i), contents.take(i))
        },
{
    assert(names.take(i + 1).drop_last() =~= names.take(i));
    assert(contents.take(i + 1).drop_last() =~= contents.take(i));
    assert(names.take(i + 1).last() == names[i]);
    assert(contents.take(i + 1).last() == contents[i]);
}

proof fn lemma_present_entries_empty_iff(names: Seq<Seq<char>>, contents: Seq<Option<Seq<u8>>>)
    requires
        names.len() == contents.len(),
    ensures
        present_entries(names, contents).len() == 0 <==> forall|i: int|
            0 <= i < contents.len() ==> contents[i] is None,
    decreases names.len(),
{
    if names.len() > 0 {
        lemma_present_entries_empty_iff(names.drop_last(), contents.drop_last());
        if present_entries(names, contents).len() == 0 {
            assert forall|i: int| 0 <= i < contents.len() implies contents[i] is None by {
                if i < contents.len() - 1 {
                    assert(contents.drop_last()[i] == contents[i]);
                }
            }
        }
        if forall|i: int| 0 <= i < contents.len() ==> contents[i] is None {
            assert(forall|i: int|
                0 <= i < contents.drop_last().len() ==> contents.drop_last()[i]
                    == contents[i] && contents[i] is None);
        }
    }
}

/// Every entry a batch yields carries one of the member names; a name that
/// differs from all of them differs from every entry's.
proof fn lemma_present_entries_fresh(
    names: Seq<Seq<char>>,
    contents: Seq<Option<Seq<u8>>>,
    target: Seq<char>,
)
    requires
        names.len() == contents.len(),
        forall|k: int| 0 <= k < names.len() ==> (#[trigger] names[k]) != target,
    ensures
        forall|m: int|
            0 <= m < present_entries(names, contents).len() ==> (#[trigger] present_entries(
                names,
                contents,
            )[m]).0 != target,
    decreases names.len(),
{
    if names.len() > 0 {
        assert(forall|k: int|
            0 <= k < names.drop_last().len() ==> (#[trigger] names.drop_last()[k]) == names[k]);
        lemma_present_entries_fresh(names.drop_last(), contents.drop_last(), target);
        let rest = present_entries(names.drop_last(), contents.drop_last());
        assert forall|m: int|
            0 <= m < present_entries(names, contents).len() implies (#[trigger] present_entries(
            names,
            contents,
        )[m]).0 != target by {
            if m < rest.len() {
                assert(present_entries(names, contents)[m] == rest[m]);
            } else {
                assert(present_entries(names, contents)[m].0 == names.last());
            }
        }
    }
}

/// Every entry a batch yields carries one present member's contents; where
/// every present member is small enough, so is every entry.
proof fn lemma_present_entries_small(names: Seq<Seq<char>>, contents: Seq<Option<Seq<u8>>>)
    requires
        names.len() == contents.len(),
        forall|k: int|
            0 <= k < contents.len() && (#[trigger] contents[k]) is Some ==> contents[k]->0.len()
                <= MAX_ENTRY_BYTES,
    ensures
        forall|m: int|
            0 <= m < present_entries(names, contents).len() ==> (#[trigger] present_entries(
                names,
                contents,
            )[m]).1.len() <= MAX_ENTRY_BYTES,
    decreases names.len(),
{
    if names.len() > 0 {
        assert(forall|k: int|
            0 <= k < contents.drop_last().len() ==> (#[trigger] contents.drop_last()[k])
                == contents[k]);
        lemma_present_entries_small(names.drop_last(), contents.drop_last());
        let rest = present_entries(names.drop_last(), contents.drop_last());
        assert forall|m: int|
            0 <= m < present_entries(names, contents).len() implies (#[trigger] present_entries(
            names,
            contents,
        )[m]).1.len() <= MAX_ENTRY_BYTES by {
            if m < rest.len() {
                assert(present_entries(names, contents)[m] == rest[m]);
            } else {
                assert(present_entries(names, contents)[m].1 == contents.last()->0);
            }
        }
    }
}

/// A UTF-8 encoding spends at most four bytes per character, so a name of
/// at most a quarter of [`MAX_NAME_BYTES`] characters always fits the
/// archive format's name field.
pub proof fn lemma_encode_utf8_len(s: Seq<char>)
    ensures
        encode_utf8(s).len() <= 4 * s.len(),
    decreases s.len(),
{
    if s.len() > 0 {
        lemma_encode_utf8_len(s.drop_first());
        assert(vstd::utf8::encode_scalar(s[0] as u32).len() <= 4);
    }
}

/// The inputs on which a batch archive's success is owed: member names
/// pairwise distinct and short enough for the archive format's name field,
/// and every present member's contents small enough for one entry.
pub open spec fn archivable(names: Seq<Seq<char>>, contents: Seq<Option<Seq<u8>>>) -> bool {
    &&& forall|i: int, j: int|
        0 <= i < j < names.len() ==> (#[trigger] names[i]) != (#[trigger] names[j])
    &&& forall|i: int|
        0 <= i < names.len() ==> encode_utf8(#[trigger] names[i]).len() <= MAX_NAME_BYTES
    &&& forall|i: int|
        0 <= i < contents.len() && (#[trigger] contents[i]) is Some ==> contents[i]->0.len()
            <= MAX_ENTRY_BYTES
}

/// A member's absence never costs a batch its owed success: inputs that
/// were archivable stay archivable when any members' contents become
/// absent, so a batch whose build was owed success keeps that claim
/// whichever of its files have vanished.
pub proof fn lemma_absence_preserves_archivable(
    names: Seq<Seq<char>>,
    contents: Seq<Option<Seq<u8>>>,
    thinned: Seq<Option<Seq<u8>>>,
)
    requires
        archivable(names, contents),
        thinned.len() == contents.len(),
        forall|i: int|
            0 <= i < thinned.len() ==> (#[trigger] thinned[i]) == contents[i] || thinned[i] is None,
    ensures
        archivable(names, thinned),
{
    assert forall|i: int|
        0 <= i < thinned.len() && (#[trigger] thinned[i]) is Some implies thinned[i]->0.len()
        <= MAX_ENTRY_BYTES by {
        assert(thinned[i] == contents[i]);
        assert(contents[i] is Some);
    }
}

/// Compresses one archive batch in memory.
///
/// `member_names` and `contents` run in step: `contents[i]` is the full
/// contents of member `i`, or `None` where that file no longer exists. A
/// missing member is tolerated, not an error: the archive holds exactly the
/// members that are present, in order, with their bytes intact. When no
/// member is present at all, no archive is produced (`Ok(None)`). On
/// [`archivable`] inputs — names pairwise distinct and short enough, every
/// present member small enough — success is owed; any failure while
/// building or finalizing the archive is reported with the archive path as
/// context.
pub fn build_batch_archive(
    member_names: &Vec<String>,
    contents: &Vec<Option<Vec<u8>>>,
    archive_path: &str,
) -> (r: DataGenResult<Option<Vec<u8>>>)
    requires
        member_names@.len() == contents@.len(),
    ensures
        r is Ok ==> match r->Ok_0 {
            Some(bytes) => unzip_of(bytes@) == present_entries(
                member_names.deep_view(),
                contents.deep_view(),
            ) && present_entries(member_names.deep_view(), contents.deep_view()).len() > 0,
            None => present_entries(member_names.deep_view(), contents.deep_view()).len() == 0,
        },
        r is Err ==> (r->Err_0 matches DataGenError::Archive { path, .. } && path@
            == archive_path@),
        archivable(member_names.deep_view(), contents.deep_view()) ==> r is Ok,
{
    let ghost names_view = member_names.deep_view();
    let ghost contents_view = contents.deep_view();
    proof {
        assert(names_view.len() == contents_view.len());
    }
    let mut any_present = false;
    let mut i: usize = 0;
    while i < contents.len()
        invariant
            i <= contents@.len(),
            contents_view == contents.deep_view(),
            contents_view.len() == contents@.len(),
            any_present <==> exists|j: int| 0 <= j < i && contents_view[j] is Some,
        decreases contents@.len() - i,
    {
        if contents[i].is_some() {
            proof {
                assert(contents_view[i as int] is Some);
            }
            any_present = true;
        }
        i = i + 1;
    }
    if !any_present {
        proof {
            lemma_present_entries_empty_iff(names_view, contents_view);
        }
        return Ok(None);
    }
    let mut w = archive_writer_new();
    let mut i: usize = 0;
    while i < member_names.len()
        invariant
            i <= member_names@.len(),
            names_view == member_names.deep_view(),
            contents_view == contents.deep_view(),
            names_view.len() == member_names@.len(),
            contents_view.len() == contents@.len(),
            member_names@.len() == contents@.len(),
            zip_entries(w) == present_entries(names_view.take(i as int), contents_view.take(
                i as int,
            )),
        decreases member_names@.len() - i,
    {
        let ghost entries_before = zip_entries(w);
        match &contents[i] {
            Some(data) => {
                let name = member_names[i].as_str();
                proof {
                    assert(names_view[i as int] == member_names@[i as int]@);
                }
                match archive_start_entry(&mut w, name) {
                    Ok(()) => {},
                    Err(message) => {
                        proof {
                            if archivable(names_view, contents_view) {
                                assert forall|k: int|
                                    0 <= k < names_view.take(i as int).len() implies (
                                #[trigger] names_view.take(i as int)[k]) != name@ by {
                                    assert(names_view.take(i as int)[k] == names_view[k]);
                                    assert(names_view[k] != names_view[i as int]);
                                }
                                assert forall|k: int|
                                    0 <= k < contents_view.take(i as int).len() && (
                                #[trigger] contents_view.take(i as int)[k]) is Some implies contents_view.take(
                                    i as int,
                                )[k]->0.len() <= MAX_ENTRY_BYTES by {
                                    assert(contents_view.take(i as int)[k] == contents_view[k]);
                                }
                                lemma_present_entries_fresh(
                                    names_view.take(i as int),
                                    contents_view.take(i as int),
                                    name@,
                                );
                                lemma_present_entries_small(
                                    names_view.take(i as int),
                                    contents_view.take(i as int),
                                );
                                assert(encode_utf8(name@).len() <= MAX_NAME_BYTES);
                                assert(false);
                            }
                        }
                        return Err(
                            DataGenError::Archive { path: archive_path.to_owned(), message },
                        );
                    },
                }
                match archive_append(&mut w, data) {
                    Ok(()) => {},
                    Err(message) => {
                        proof {
                            if archivable(names_view, contents_view) {
                                assert(contents_view[i as int] == Some(data@));
                                assert(data@.len() <= MAX_ENTRY_BYTES);
                                assert(false);
                            }
                        }
                        return Err(
                            DataGenError::Archive { path: archive_path.to_owned(), message },
                        );
                    },
                }
                proof {
                    assert(names_view[i as int] == member_names@[i as int]@);
                    assert(contents_view[i as int] == Some(data@));
                    assert(zip_entries(w) =~~= entries_before.push(
                        (names_view[i as int], data@),
                    ));
                    lemma_present_entries_take_step(names_view, contents_view, i as int);
                }
            },
            None => {
                proof {
                    assert(contents_view[i as int] is None);
                    lemma_present_entries_take_step(names_view, contents_view, i as int);
                }
            },
        }
        i = i + 1;
    }
    proof {
        assert(names_view.take(names_view.len() as int) =~= names_view);
        assert(contents_view.take(contents_view.len() as int) =~= contents_view);
        lemma_present_entries_empty_iff(names_view, contents_view);
    }
    match archive_finish(w) {
        Ok(bytes) => Ok(Some(bytes)),
        Err(message) => {
            proof {
                if archivable(names_view, contents_view) {
                    lemma_present_entries_small(names_view, contents_view);
                    assert(false);
                }
            }
            Err(DataGenError::Archive { path: archive_path.to_owned(), message })
        },
    }
}

} // verus!
