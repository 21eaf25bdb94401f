//! Unpacking of the MIR-1K singing dataset: which directories and files a
//! downloaded zip archive turns into, and where unpacking stops.
use std::io::{Cursor, Read};
use vstd::prelude::*;

verus! {

/// One member of a zip archive, as read from it.
pub struct ArchiveMember {
    /// The member's path when it stays inside the target directory (no
    /// absolute path, no `..` leaving it), `None` otherwise.
    pub name: Option<String>,
    pub is_dir: bool,
    /// The member's decompressed bytes (those read before a failure, if
    /// reading failed).
    pub contents: Vec<u8>,
    /// Why reading the member's bytes failed, if it did.
    pub read_error: Option<String>,
}

/// The members of a zip archive, in archive order, up to the first member
/// whose header could not be read.
pub struct ArchiveRead {
    pub members: Vec<ArchiveMember>,
    /// Why the member after the last one in `members` could not be read.
    pub entry_error: Option<String>,
}

/// A member as plain values: name, directory flag, bytes, and whether
/// reading the bytes failed.
pub open spec fn member_view(m: ArchiveMember) -> (Option<Seq<char>>, bool, Seq<u8>, bool) {
    (
        match m.name {
            Some(n) => Some(n@),
            None => None,
        },
        m.is_dir,
        m.contents@,
        m.read_error is Some,
    )
}

/// Members as plain values.
pub open spec fn members_view(ms: Seq<ArchiveMember>) -> Seq<(Option<Seq<char>>, bool, Seq<u8>, bool)> {
    ms.map_values(|m: ArchiveMember| member_view(m))
}

/// The members of the zip archive `archive` as plain values, in archive
/// order up to the first member whose header cannot be read, and whether
/// there is such a member; `None` when the bytes are not a zip archive.
pub uninterp spec fn zip_members(archive: Seq<u8>) -> Option<(Seq<(Option<Seq<char>>, bool, Seq<u8>, bool)>, bool)>;

/// Reads every member of a zip archive held in memory, with the `zip`
/// crate: `ZipArchive::new` over the bytes, then for each index `by_index`,
/// `read_to_end` of the member's bytes, `enclosed_name` and `is_dir`.
/// Claimed: the result is [`zip_members`] of the bytes (`Err` exactly when
/// the archive cannot be opened). The error texts (the `Display` of the
/// crate's errors) are not stated.
#[verifier::external_body]
fn read_zip_members(archive: &[u8]) -> (r: Result<ArchiveRead, String>)
    ensures
        match r {
            Ok(read) => zip_members(archive@) == Some(
                (members_view(read.members@), read.entry_error is Some),
            ),
            Err(_) => zip_members(archive@) is None,
        },
{
    let mut zip = zip::ZipArchive::new(Cursor::new(archive)).map_err(|e| e.to_string())?;
    let mut members = Vec::new();
    for i in 0..zip.len() {
        let mut entry = match zip.by_index(i) {
            Ok(entry) => entry,
            Err(e) => return Ok(ArchiveRead { members, entry_error: Some(e.to_string()) }),
        };
        let mut contents = Vec::new();
        let read_error = entry.read_to_end(&mut contents).err().map(|e| e.to_string());
        let name = entry.enclosed_name().map(|p| p.to_string_lossy().into_owned());
        members.push(ArchiveMember { name, is_dir: entry.is_dir(), contents, read_error });
    }
    Ok(ArchiveRead { members, entry_error: None })
}

/// One step of unpacking, with paths relative to the target directory.
pub enum ExtractStep {
    /// Create this directory (and its parents).
    CreateDir(String),
    /// Create this file (and its parent directories) with these bytes.
    WriteFile(String, Vec<u8>),
}

/// Where unpacking stops short of the archive's end.
pub enum ExtractStop {
    /// The header of member `index` could not be read.
    UnreadableEntry { index: usize, message: String },
    /// The bytes of member `member`, a file at `path`, could not all be read.
    UnreadableContents { member: usize, path: String, message: String },
}

/// The steps of unpacking an archive, the number of files they write, and
/// where unpacking stops, if it stops early.
pub struct ExtractionPlan {
    pub steps: Vec<ExtractStep>,
    pub file_count: usize,
    pub stop: Option<ExtractStop>,
}

/// A step as plain values.
pub enum StepView {
    Dir(Seq<char>),
    File(Seq<char>, Seq<u8>),
}

/// Where unpacking stops, as plain values.
pub enum StopView {
    UnreadableEntry(nat),
    UnreadableContents(nat, Seq<char>),
}

pub open spec fn step_view(s: ExtractStep) -> StepView {
    match s {
        ExtractStep::CreateDir(p) => StepView::Dir(p@),
        ExtractStep::WriteFile(p, b) => StepView::File(p@, b@),
    }
}

/// Steps as plain values.
pub open spec fn steps_view(steps: Seq<ExtractStep>) -> Seq<StepView> {
    steps.map_values(|s: ExtractStep| step_view(s))
}

pub open spec fn stop_view(s: ExtractStop) -> StopView {
    match s {
        ExtractStop::UnreadableEntry { index, .. } => StopView::UnreadableEntry(index as nat),
        ExtractStop::UnreadableContents { member, path, .. } => StopView::UnreadableContents(member as nat, path@),
    }
}

/// The step a member gives: none when its path would leave the target
/// directory, otherwise a directory to create or a file to write.
pub open spec fn member_steps(m: (Option<Seq<char>>, bool, Seq<u8>, bool)) -> Seq<StepView> {
    match m.0 {
        None => seq![],
        Some(name) => if m.1 {
            seq![StepView::Dir(name)]
        } else {
            seq![StepView::File(name, m.2)]
        },
    }
}

/// A member stops unpacking: it is a file to write whose bytes could not
/// all be read (what was read is still written).
pub open spec fn member_stops(m: (Option<Seq<char>>, bool, Seq<u8>, bool)) -> bool {
    m.0 is Some && !m.1 && m.3
}

/// Unpacking the members `ms`, the first of which is member `index` of the
/// archive, when `entry_failed` tells that the member after them could not
/// be read: the steps in member order, and where unpacking stops.
pub open spec fn plan_from(
    ms: Seq<(Option<Seq<char>>, bool, Seq<u8>, bool)>,
    index: nat,
    entry_failed: bool,
) -> (Seq<StepView>, Option<StopView>)
    decreases ms.len(),
{
    if ms.len() == 0 {
        (seq![], if entry_failed {
            Some(StopView::UnreadableEntry(index))
        } else {
            None
        })
    } else if member_stops(ms[0]) {
        (member_steps(ms[0]), Some(StopView::UnreadableContents(index, ms[0].0->Some_0)))
    } else {
        let (rest, stop) = plan_from(ms.drop_first(), index + 1, entry_failed);
        (member_steps(ms[0]) + rest, stop)
    }
}

/// Number of files that `steps` write.
pub open spec fn files_written(steps: Seq<StepView>) -> nat
    decreases steps.len(),
{
    if steps.len() == 0 {
        0
    } else {
        files_written(steps.drop_last()) + if steps.last() is File {
            1nat
        } else {
            0nat
        }
    }
}

/// `plan` unpacks the members `ms` of an archive whose reading stopped at an
/// unreadable member when `entry_failed`.
pub open spec fn plans(
    plan: ExtractionPlan,
    ms: Seq<(Option<Seq<char>>, bool, Seq<u8>, bool)>,
    entry_failed: bool,
) -> bool {
    let (steps, stop) = plan_from(ms, 0, entry_failed);
    &&& steps_view(plan.steps@) == steps
    &&& plan.file_count == files_written(steps)
    &&& match plan.stop {
        Some(s) => stop == Some(stop_view(s)),
        None => stop is None,
    }
}

proof fn lemma_files_written_append(a: Seq<StepView>, b: Seq<StepView>)
    ensures
        files_written(a + b) == files_written(a) + files_written(b),
    decreases b.len(),
{
    if b.len() == 0 {
        assert(a + b =~= a);
    } else {
        assert((a + b).drop_last() =~= a + b.drop_last());
        lemma_files_written_append(a, b.drop_last());
    }
}

proof fn lemma_files_written_bounded(a: Seq<StepView>)
    ensures
        files_written(a) <= a.len(),
    decreases a.len(),
{
    if a.len() > 0 {
        lemma_files_written_bounded(a.drop_last());
    }
}

/// Plans the unpacking of the members read from an archive: for each member
/// in order, nothing when its path would leave the target directory, a
/// directory to create or a file to write; unpacking stops after a file
/// whose bytes could not all be read, or at the end at a member whose header
/// could not be read. Stop messages are the reading errors.
pub fn plan_extraction(read: ArchiveRead) -> (plan: ExtractionPlan)
    ensures
        plans(plan, members_view(read.members@), read.entry_error is Some),
        match plan.stop {
            Some(ExtractStop::UnreadableEntry { message, .. }) => read.entry_error == Some(message),
            Some(ExtractStop::UnreadableContents { member, message, .. }) => {
                &&& member < read.members@.len()
                &&& read.members@[member as int].read_error == Some(message)
            },
            None => true,
        },
{
    let ArchiveRead { members, entry_error } = read;
    let ghost all = members@;
    let ghost views = members_view(all);
    let ghost failed = entry_error is Some;
    let total: usize = members.len();
    assert(all.len() == total);
    let mut rest = members;
    let mut steps: Vec<ExtractStep> = Vec::new();
    let mut file_count: usize = 0;
    let mut i: usize = 0;
    proof {
        assert(views.skip(0) =~= views);
        assert(steps_view(steps@) + plan_from(views, 0, failed).0
            =~= plan_from(views, 0, failed).0);
    }
    while rest.len() > 0
        invariant
            all == read.members@,
            entry_error == read.entry_error,
            all.len() <= usize::MAX,
            i + rest@.len() == all.len(),
            rest@ == all.skip(i as int),
            views == members_view(all),
            failed == (entry_error is Some),
            ({
                let (later, stop) = plan_from(views.skip(i as int), i as nat, failed);
                let (whole, whole_stop) = plan_from(views, 0, failed);
                &&& whole == steps_view(steps@) + later
                &&& whole_stop == stop
            }),
            file_count == files_written(steps_view(steps@)),
            steps@.len() <= i,
        decreases rest.len(),
    {
        let m = rest.remove(0);
        let ghost mv = member_view(m);
        let ghost before = steps_view(steps@);
        proof {
            assert(views.skip(i as int)[0] == mv);
            assert(views.skip(i as int).drop_first() =~= views.skip(i as int + 1));
            assert(rest@ =~= all.skip(i as int + 1));
        }
        let ArchiveMember { name, is_dir, contents, read_error } = m;
        match name {
            None => {
                proof {
                    assert(member_steps(mv) =~= Seq::<StepView>::empty());
                    assert(before + (member_steps(mv) + plan_from(views.skip(i as int + 1), i as nat + 1, failed).0)
                        =~= before + plan_from(views.skip(i as int + 1), i as nat + 1, failed).0);
                }
            },
            Some(path) => {
                if is_dir {
                    steps.push(ExtractStep::CreateDir(path));
                    proof {
                        let after = steps_view(steps@);
                        assert(after =~= before + member_steps(mv));
                        assert(after.drop_last() =~= before);
                        assert(before + (member_steps(mv) + plan_from(views.skip(i as int + 1), i as nat + 1, failed).0)
                            =~= after + plan_from(views.skip(i as int + 1), i as nat + 1, failed).0);
                    }
                } else {
                    let stop_path = path.clone();
                    steps.push(ExtractStep::WriteFile(path, contents));
                    proof {
                        let after = steps_view(steps@);
                        assert(after =~= before + member_steps(mv));
                        assert(after.drop_last() =~= before);
                        lemma_files_written_bounded(before);
                        assert(file_count < usize::MAX);
                    }
                    file_count = file_count + 1;
                    match read_error {
                        Some(message) => {
                            proof {
                                let after = steps_view(steps@);
                                assert(member_stops(mv));
                                assert(plan_from(views.skip(i as int), i as nat, failed) == (
                                    member_steps(mv),
                                    Some(StopView::UnreadableContents(i as nat, stop_path@)),
                                ));
                                assert(files_written(after) == files_written(before) + 1);
                                assert(all[i as int] == m);

                            }
                            return ExtractionPlan {
                                steps,
                                file_count,
                                stop: Some(ExtractStop::UnreadableContents { member: i, path: stop_path, message }),
                            };
                        },
                        None => {
                            proof {
                                let after = steps_view(steps@);
                                assert(before + (member_steps(mv) + plan_from(views.skip(i as int + 1), i as nat + 1, failed).0)
                                    =~= after + plan_from(views.skip(i as int + 1), i as nat + 1, failed).0);
                            }
                        },
                    }
                }
            },
        }
        i = i + 1;
    }
    proof {
        assert(views.skip(i as int).len() == 0);
        let whole = plan_from(views, 0, failed).0;
        assert(whole =~= steps_view(steps@));
    }
    let stop = match entry_error {
        Some(message) => Some(ExtractStop::UnreadableEntry { index: i, message }),
        None => None,
    };
    ExtractionPlan { steps, file_count, stop }
}

/// Reads a downloaded archive held in memory and plans its unpacking (see
/// [`plan_extraction`]); `Err` carries the reason when the bytes are not a
/// zip archive.
pub fn plan_archive_extraction(archive: &[u8]) -> (r: Result<ExtractionPlan, String>)
    ensures
        match r {
            Ok(plan) => zip_members(archive@) matches Some((ms, failed)) && plans(plan, ms, failed),
            Err(_) => zip_members(archive@) is None,
        },
{
    match read_zip_members(archive) {
        Ok(read) => Ok(plan_extraction(read)),
        Err(message) => Err(message),
    }
}

} // verus!
