//! Reading the project archive Spring Initializr sends: its entries, the
//! folder they share, and what becomes of each when it is unpacked.
use vstd::prelude::*;
use std::io::Cursor;
use zip::ZipArchive;
use zip::result::ZipError;
use crate::text::{
    extend, from_chars, has_prefix, has_suffix, index_of_char_from, is_text, lemma_find_char_from_bounds,
    slice_range, spec_ends_with, spec_find_char_from, spec_starts_with, to_chars,
};

verus! {

#[verifier::external_type_specification]
#[verifier::external_body]
#[verifier::reject_recursive_types(R)]
pub struct ExZipArchive<R>(ZipArchive<R>);

#[verifier::external_type_specification]
#[verifier::external_body]
#[verifier::reject_recursive_types(T)]
pub struct ExCursor<T>(Cursor<T>);

#[verifier::external_type_specification]
#[verifier::external_body]
pub struct ExZipError(ZipError);

#[verifier::external_type_specification]
#[verifier::external_body]
pub struct ExIoError(std::io::Error);

/// An archive read from bytes held in memory.
pub type Archive = ZipArchive<Cursor<Vec<u8>>>;

/// The names of the entries the zip format puts in `bytes`, in order.
pub uninterp spec fn zip_listing(bytes: Seq<u8>) -> Seq<Seq<char>>;

/// The names of an archive's entries, in order.
pub uninterp spec fn zip_entry_names(a: ZipArchive<Cursor<Vec<u8>>>) -> Seq<Seq<char>>;

/// The unpacked contents of an archive's entries, in order.
pub uninterp spec fn zip_entry_data(a: ZipArchive<Cursor<Vec<u8>>>) -> Seq<Seq<u8>>;

/// Whether the zip format reads `bytes` as an archive.
pub uninterp spec fn zip_opens(bytes: Seq<u8>) -> bool;

/// Whether each entry of an archive can be opened, in order.
pub uninterp spec fn zip_entry_opens(a: ZipArchive<Cursor<Vec<u8>>>) -> Seq<bool>;

/// Whether each entry of an archive can be opened and read to its end, in
/// order.
pub uninterp spec fn zip_entry_reads(a: ZipArchive<Cursor<Vec<u8>>>) -> Seq<bool>;

/// The archive's names, contents, and what opening and reading each entry
/// gives all have one entry per entry of the archive.
pub open spec fn entries_aligned(a: ZipArchive<Cursor<Vec<u8>>>) -> bool {
    &&& zip_entry_data(a).len() == zip_entry_names(a).len()
    &&& zip_entry_opens(a).len() == zip_entry_names(a).len()
    &&& zip_entry_reads(a).len() == zip_entry_names(a).len()
}

/// What the archive says of its entries stays as it was.
pub open spec fn entries_kept(before: ZipArchive<Cursor<Vec<u8>>>, after: ZipArchive<Cursor<Vec<u8>>>) -> bool {
    &&& zip_entry_names(after) == zip_entry_names(before)
    &&& zip_entry_data(after) == zip_entry_data(before)
    &&& zip_entry_opens(after) == zip_entry_opens(before)
    &&& zip_entry_reads(after) == zip_entry_reads(before)
}

/// `ZipArchive::new` over the bytes: it succeeds exactly when they read as
/// an archive, and then its entries are those the zip format puts in them.
#[verifier::external_body]
fn open_archive(bytes: Vec<u8>) -> (r: Result<Archive, ZipError>)
    ensures
        r is Ok <==> zip_opens(bytes@),
        r matches Ok(a) ==> zip_entry_names(a) == zip_listing(bytes@) && entries_aligned(a),
{
    ZipArchive::new(Cursor::new(bytes))
}

/// `ZipArchive::len`: the number of entries.
#[verifier::external_body]
fn archive_len(a: &Archive) -> (r: usize)
    ensures
        r == zip_entry_names(*a).len(),
{
    a.len()
}

/// `ZipArchive::by_index` and `ZipFile::name`: the name of entry `i` when
/// it opens, else the error opening it gave. The entries stay as they were.
#[verifier::external_body]
fn entry_name(a: &mut Archive, i: usize) -> (r: Result<String, ZipError>)
    requires
        i < zip_entry_names(*old(a)).len(),
    ensures
        entries_kept(*old(a), *final(a)),
        r is Ok <==> zip_entry_opens(*old(a))[i as int],
        r matches Ok(n) ==> n@ == zip_entry_names(*old(a))[i as int],
{
    match a.by_index(i) {
        Ok(f) => Ok(f.name().to_string()),
        Err(e) => Err(e),
    }
}

/// `ZipArchive::by_index` and `Read::read_to_end`: the contents of entry
/// `i` when it opens and reads to its end, else the error opening
/// (converted as the zip crate converts it) or reading it gave. The entries
/// stay as they were.
#[verifier::external_body]
fn entry_bytes(a: &mut Archive, i: usize) -> (r: Result<Vec<u8>, std::io::Error>)
    requires
        i < zip_entry_names(*old(a)).len(),
    ensures
        entries_kept(*old(a), *final(a)),
        r is Ok <==> zip_entry_reads(*old(a))[i as int],
        r matches Ok(d) ==> d@ == zip_entry_data(*old(a))[i as int],
{
    let mut f = a.by_index(i).map_err(std::io::Error::from)?;
    let mut buf = Vec::new();
    std::io::Read::read_to_end(&mut f, &mut buf)?;
    Ok(buf)
}

/// `ZipError`'s `Display` text. Nothing is stated of it.
#[verifier::external_body]
fn zip_error_text(e: &ZipError) -> String {
    format!("{e}")
}

/// `std::io::Error`'s `Display` text. Nothing is stated of it.
#[verifier::external_body]
fn io_error_text(e: &std::io::Error) -> String {
    format!("{e}")
}

fn prefixed(prefix: &str, text: String) -> (r: String)
    ensures
        r@ == prefix@ + text@,
{
    let mut out = to_chars(prefix);
    extend(&mut out, &to_chars(text.as_str()));
    from_chars(&out)
}

/// Opens the archive in `bytes`.
pub fn open_zip(bytes: Vec<u8>) -> (r: Result<Archive, String>)
    ensures
        r is Ok <==> zip_opens(bytes@),
        match r {
            Ok(a) => zip_entry_names(a) == zip_listing(bytes@) && entries_aligned(a),
            Err(e) => spec_starts_with(e@, "Failed to open zip: "@),
        },
{
    match open_archive(bytes) {
        Ok(a) => Ok(a),
        Err(e) => {
            let msg = prefixed("Failed to open zip: ", zip_error_text(&e));
            assert(msg@.take("Failed to open zip: "@.len() as int) =~= "Failed to open zip: "@);
            Err(msg)
        },
    }
}

// ── The shared folder ──

/// The folder all entries lie in, as `name/`: the first entry's name up to
/// its first `/`, when every other entry starts with it. An entry that
/// could not be read (`None`) is passed over, except the first.
pub open spec fn spec_zip_prefix(names: Seq<Option<Seq<char>>>) -> Option<Seq<char>> {
    if names.len() == 0 {
        None
    } else {
        match names[0] {
            None => None,
            Some(first) => match spec_find_char_from(first, '/', 0) {
                None => None,
                Some(k) => {
                    let p = first.take(k + 1);
                    if forall|i: int| 1 <= i < names.len() ==> (#[trigger] names[i] matches Some(n) ==> spec_starts_with(n, p)) {
                        Some(p)
                    } else {
                        None
                    }
                },
            },
        }
    }
}

/// What reading each entry's name gives: the name where the entry opens,
/// nothing where it does not.
pub open spec fn name_reads(names: Seq<Seq<char>>, opens: Seq<bool>) -> Seq<Option<Seq<char>>> {
    Seq::new(names.len(), |i: int| if opens[i] { Some(names[i]) } else { None })
}

fn prefix_of_reads(reads: &Vec<Option<String>>) -> (r: Option<String>)
    ensures
        match r {
            Some(p) => spec_zip_prefix(read_views(reads@)) == Some(p@),
            None => spec_zip_prefix(read_views(reads@)) is None,
        },
{
    let ghost rv = read_views(reads@);
    if reads.len() == 0 {
        return None;
    }
    assert(rv[0] == match reads@[0] { Some(s) => Some(s@), None => None::<Seq<char>> });
    let first = match &reads[0] {
        None => return None,
        Some(f) => to_chars(f.as_str()),
    };
    proof {
        lemma_find_char_from_bounds(first@, '/', 0);
    }
    let k = match index_of_char_from(&first, '/', 0) {
        None => return None,
        Some(k) => k,
    };
    assert(k < first.len());
    let p = slice_range(&first, 0, k + 1);
    assert(p@ == first@.take(k + 1));
    let mut i: usize = 1;
    while i < reads.len()
        invariant
            1 <= i <= reads.len(),
            rv == read_views(reads@),
            rv[0] == Some(first@),
            spec_find_char_from(first@, '/', 0) == Some(k as int),
            p@ == first@.take(k + 1),
            forall|j: int| 1 <= j < i ==> (#[trigger] rv[j] matches Some(n) ==> spec_starts_with(n, p@)),
        decreases reads.len() - i,
    {
        assert(rv[i as int] == match reads@[i as int] { Some(s) => Some(s@), None => None::<Seq<char>> });
        match &reads[i] {
            Some(n) => {
                if !has_prefix(&to_chars(n.as_str()), &p) {
                    assert(rv[i as int] == Some(n@));
                    return None;
                }
            },
            None => {},
        }
        i = i + 1;
    }
    Some(from_chars(&p))
}

pub open spec fn read_views(v: Seq<Option<String>>) -> Seq<Option<Seq<char>>> {
    v.map_values(|o: Option<String>| match o {
        Some(s) => Some(s@),
        None => None,
    })
}

/// The folder all the archive's entries share, if any (see
/// `spec_zip_prefix`); an entry that cannot be opened is passed over,
/// except the first.
pub fn find_zip_prefix(archive: &mut Archive) -> (r: Option<String>)
    ensures
        entries_kept(*old(archive), *final(archive)),
        spec_zip_prefix(name_reads(zip_entry_names(*old(archive)), zip_entry_opens(*old(archive)))) == match r {
            Some(p) => Some(p@),
            None => None::<Seq<char>>,
        },
{
    let ghost a0 = *archive;
    let ghost names = zip_entry_names(*archive);
    let ghost opens = zip_entry_opens(*archive);
    let n = archive_len(archive);
    let mut reads: Vec<Option<String>> = Vec::new();
    let mut i: usize = 0;
    while i < n
        invariant
            i <= n,
            n == names.len(),
            names == zip_entry_names(a0),
            opens == zip_entry_opens(a0),
            entries_kept(a0, *archive),
            reads@.len() == i,
            forall|k: int| 0 <= k < i ==> (match #[trigger] reads@[k] {
                Some(s) => opens[k] && s@ == names[k],
                None => !opens[k],
            }),
        decreases n - i,
    {
        let read = match entry_name(archive, i) {
            Ok(s) => Some(s),
            Err(_) => None,
        };
        reads.push(read);
        i = i + 1;
    }
    let r = prefix_of_reads(&reads);
    let ghost rv = read_views(reads@);
    assert(rv =~= name_reads(names, opens)) by {
        assert forall|k: int| 0 <= k < rv.len() implies rv[k] == name_reads(names, opens)[k] by {
            assert(rv[k] == match reads@[k] { Some(s) => Some(s@), None => None::<Seq<char>> });
        }
    }
    r
}

// ── Each entry ──

/// What unpacking an entry does.
pub enum EntryAction {
    /// Nothing: the entry is the shared folder itself.
    Skip,
    /// A folder to create, at this path below the target.
    Dir(String),
    /// A file to write, at this path below the target, with these bytes.
    File(String, Vec<u8>),
}

pub enum EntryActionView {
    Skip,
    Dir(Seq<char>),
    File(Seq<char>, Seq<u8>),
}

pub open spec fn entry_action_view(a: EntryAction) -> EntryActionView {
    match a {
        EntryAction::Skip => EntryActionView::Skip,
        EntryAction::Dir(p) => EntryActionView::Dir(p@),
        EntryAction::File(p, d) => EntryActionView::File(p@, d@),
    }
}

/// An entry's path below the target: its name without the shared folder.
pub open spec fn spec_relative_path(name: Seq<char>, prefix: Option<Seq<char>>) -> Seq<char> {
    match prefix {
        Some(p) => if spec_starts_with(name, p) {
            name.skip(p.len() as int)
        } else {
            name
        },
        None => name,
    }
}

/// What becomes of an entry: nothing when its path below the target is
/// empty or `/`; a folder when its name ends with `/`; else a file with its
/// contents.
pub open spec fn spec_entry_action(name: Seq<char>, prefix: Option<Seq<char>>, data: Seq<u8>) -> EntryActionView {
    let rel = spec_relative_path(name, prefix);
    if rel.len() == 0 || rel == "/"@ {
        EntryActionView::Skip
    } else if spec_ends_with(name, "/"@) {
        EntryActionView::Dir(rel)
    } else {
        EntryActionView::File(rel, data)
    }
}

pub fn relative_path(name: &str, prefix: &Option<String>) -> (r: String)
    ensures
        r@ == spec_relative_path(name@, match prefix {
            Some(p) => Some(p@),
            None => None,
        }),
{
    match prefix {
        Some(p) => {
            let n = to_chars(name);
            let pc = to_chars(p.as_str());
            if has_prefix(&n, &pc) {
                let r = from_chars(&slice_range(&n, pc.len(), n.len()));
                assert(n@.subrange(pc@.len() as int, n@.len() as int) == n@.skip(pc@.len() as int));
                r
            } else {
                name.to_owned()
            }
        },
        None => name.to_owned(),
    }
}

/// Reads entry `i` and says what unpacking it does. It fails exactly when
/// the entry does not open, or when it is a file whose contents cannot be
/// read.
pub fn entry_action(archive: &mut Archive, i: usize, prefix: &Option<String>) -> (r: Result<EntryAction, String>)
    requires
        i < zip_entry_names(*old(archive)).len(),
        entries_aligned(*old(archive)),
    ensures
        entries_kept(*old(archive), *final(archive)),
        r is Ok <==> zip_entry_opens(*old(archive))[i as int] && (spec_entry_action(
            zip_entry_names(*old(archive))[i as int],
            match prefix {
                Some(p) => Some(p@),
                None => None,
            },
            zip_entry_data(*old(archive))[i as int],
        ) is File ==> zip_entry_reads(*old(archive))[i as int]),
        match r {
            Ok(a) => entry_action_view(a) == spec_entry_action(
                zip_entry_names(*old(archive))[i as int],
                match prefix {
                    Some(p) => Some(p@),
                    None => None,
                },
                zip_entry_data(*old(archive))[i as int],
            ),
            Err(e) => if zip_entry_opens(*old(archive))[i as int] {
                spec_starts_with(e@, "Failed to read file from zip: "@)
            } else {
                spec_starts_with(e@, "Zip read error: "@)
            },
        },
{
    let name = match entry_name(archive, i) {
        Ok(n) => n,
        Err(e) => {
            let msg = prefixed("Zip read error: ", zip_error_text(&e));
            assert(msg@.take("Zip read error: "@.len() as int) =~= "Zip read error: "@);
            return Err(msg);
        },
    };
    let rel = relative_path(name.as_str(), prefix);
    proof {
        reveal_strlit("/");
    }
    let rc = to_chars(rel.as_str());
    if rc.len() == 0 || is_text(&rc, "/") {
        return Ok(EntryAction::Skip);
    }
    if has_suffix(&to_chars(name.as_str()), &to_chars("/")) {
        return Ok(EntryAction::Dir(rel));
    }
    match entry_bytes(archive, i) {
        Ok(d) => Ok(EntryAction::File(rel, d)),
        Err(e) => {
            let msg = prefixed("Failed to read file from zip: ", io_error_text(&e));
            assert(msg@.take("Failed to read file from zip: "@.len() as int) =~= "Failed to read file from zip: "@);
            Err(msg)
        },
    }
}

/// The number of entries of the archive.
pub fn entry_count(archive: &Archive) -> (r: usize)
    ensures
        r == zip_entry_names(*archive).len(),
{
    archive_len(archive)
}

} // verus!
