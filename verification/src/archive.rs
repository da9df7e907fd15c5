//! The entries of a zip archive, and the steps that unpack them.

use vstd::prelude::*;

verus! {

/// One entry of a zip archive: its name inside the archive and its contents.
pub struct ZipEntry {
    pub name: String,
    pub data: Vec<u8>,
}

/// Entries as plain values: name and contents, in order.
pub open spec fn entries_view(v: Seq<ZipEntry>) -> Seq<(Seq<char>, Seq<u8>)> {
    v.map_values(|e: ZipEntry| (e.name@, e.data@))
}

/// What the `zip` crate reads from an archive held in `bytes`: each entry's
/// name and decompressed contents, in archive order; `None` when the archive
/// or one of its entries cannot be read.
pub uninterp spec fn zip_listing(bytes: Seq<u8>) -> Option<Seq<(Seq<char>, Seq<u8>)>>;

/// Trusted: opens `bytes` with `zip::ZipArchive::new` over an in-memory
/// cursor and reads every entry in turn with `ZipArchive::by_index`,
/// `ZipFile::name` and `Read::read_to_end`.
/// Claimed: the entries are `zip_listing` of the bytes; a failure of any of
/// those calls gives `None`. How entries are decoded is left to the name.
#[verifier::external_body]
fn zip_entries(bytes: &[u8]) -> (r: Option<Vec<ZipEntry>>)
    ensures
        match r {
            Some(v) => zip_listing(bytes@) == Some(entries_view(v@)),
            None => zip_listing(bytes@) is None,
        },
{
    let mut archive = zip::ZipArchive::new(std::io::Cursor::new(bytes.to_vec())).ok()?;
    let mut out = Vec::new();
    for i in 0..archive.len() {
        let mut file = archive.by_index(i).ok()?;
        let mut data = Vec::new();
        std::io::Read::read_to_end(&mut file, &mut data).ok()?;
        out.push(ZipEntry { name: file.name().to_string(), data });
    }
    Some(out)
}

/// One step of unpacking an archive into a folder.
pub enum ExtractStep {
    /// Create the folder at this relative path.
    CreateDir { path: String },
    /// Write these bytes to the file at this relative path (creating its
    /// parent folders).
    WriteFile { path: String, data: Vec<u8> },
}

/// A step as plain values.
pub enum StepView {
    CreateDir(Seq<char>),
    WriteFile(Seq<char>, Seq<u8>),
}

impl ExtractStep {
    pub open spec fn view(&self) -> StepView {
        match self {
            ExtractStep::CreateDir { path } => StepView::CreateDir(path@),
            ExtractStep::WriteFile { path, data } => StepView::WriteFile(path@, data@),
        }
    }
}

/// Steps as plain values.
pub open spec fn steps_view(v: Seq<ExtractStep>) -> Seq<StepView> {
    v.map_values(|s: ExtractStep| s.view())
}

/// The step for one entry: an entry whose name ends in '/' is a folder,
/// any other is a file with its contents.
pub open spec fn step_of(name: Seq<char>, data: Seq<u8>) -> StepView {
    if name.len() > 0 && name.last() == '/' {
        StepView::CreateDir(name)
    } else {
        StepView::WriteFile(name, data)
    }
}

/// One step per entry, in order.
pub open spec fn plan_of(entries: Seq<(Seq<char>, Seq<u8>)>) -> Seq<StepView> {
    entries.map_values(|e: (Seq<char>, Seq<u8>)| step_of(e.0, e.1))
}

fn copy_bytes(b: &Vec<u8>) -> (r: Vec<u8>)
    ensures
        r@ == b@,
{
    let mut r: Vec<u8> = Vec::new();
    let mut i: usize = 0;
    while i < b.len()
        invariant
            i <= b.len(),
            r@ == b@.take(i as int),
        decreases b.len() - i,
    {
        r.push(b[i]);
        assert(r@ =~= b@.take(i + 1));
        i = i + 1;
    }
    assert(b@.take(b@.len() as int) =~= b@);
    r
}

/// The steps that unpack `entries`: one per entry, in order, a folder for a
/// name ending in '/', else the entry's file with its contents.
pub fn extraction_plan(entries: &Vec<ZipEntry>) -> (p: Vec<ExtractStep>)
    ensures
        steps_view(p@) == plan_of(entries_view(entries@)),
{
    let mut out: Vec<ExtractStep> = Vec::new();
    let mut i: usize = 0;
    while i < entries.len()
        invariant
            i <= entries.len(),
            steps_view(out@) == plan_of(entries_view(entries@)).take(i as int),
        decreases entries.len() - i,
    {
        let e = &entries[i];
        let cs = crate::text::chars_of(e.name.as_str());
        let name = crate::text::string_from_chars(cs.as_slice());
        let is_dir = cs.len() > 0 && cs[cs.len() - 1] == '/';
        let step = if is_dir {
            ExtractStep::CreateDir { path: name }
        } else {
            ExtractStep::WriteFile { path: name, data: copy_bytes(&e.data) }
        };
        let ghost before = out@;
        out.push(step);
        proof {
            assert(entries_view(entries@)[i as int] == (e.name@, e.data@));
            assert(steps_view(out@) =~= steps_view(before).push(step.view()));
            assert(plan_of(entries_view(entries@)).take(i + 1) =~= plan_of(entries_view(entries@)).take(
                i as int,
            ).push(step_of(e.name@, e.data@)));
        }
        i = i + 1;
    }
    assert(plan_of(entries_view(entries@)).take(entries@.len() as int) =~= plan_of(entries_view(entries@)));
    out
}

/// The steps that unpack the zip archive held in `bytes`; `None` when the
/// archive cannot be read.
pub fn extraction_steps(bytes: &[u8]) -> (r: Option<Vec<ExtractStep>>)
    ensures
        r is None <==> zip_listing(bytes@) is None,
        r matches Some(p) ==> zip_listing(bytes@) matches Some(l) && steps_view(p@) == plan_of(l),
{
    match zip_entries(bytes) {
        Some(entries) => Some(extraction_plan(&entries)),
        None => None,
    }
}

} // verus!
