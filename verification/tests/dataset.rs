use std::io::Write;

use ferrotone::dataset::{
    plan_archive_extraction, plan_extraction, ArchiveMember, ArchiveRead, ExtractStep, ExtractStop,
};
use zip::write::SimpleFileOptions;

fn archive(entries: &[(&str, Option<&[u8]>)]) -> Vec<u8> {
    let mut w = zip::ZipWriter::new(std::io::Cursor::new(Vec::new()));
    for (name, contents) in entries {
        match contents {
            None => w.add_directory(*name, SimpleFileOptions::default()).unwrap(),
            Some(bytes) => {
                w.start_file(*name, SimpleFileOptions::default()).unwrap();
                w.write_all(bytes).unwrap();
            }
        }
    }
    w.finish().unwrap().into_inner()
}

fn step_names(steps: &[ExtractStep]) -> Vec<String> {
    steps
        .iter()
        .map(|s| match s {
            ExtractStep::CreateDir(p) => format!("dir {p}"),
            ExtractStep::WriteFile(p, b) => format!("file {p} {}", b.len()),
        })
        .collect()
}

fn member(name: Option<&str>, is_dir: bool, contents: &[u8], read_error: Option<&str>) -> ArchiveMember {
    ArchiveMember {
        name: name.map(|n| n.to_string()),
        is_dir,
        contents: contents.to_vec(),
        read_error: read_error.map(|e| e.to_string()),
    }
}

#[test]
fn archive_members_become_steps_in_order() {
    let bytes = archive(&[
        ("MIR-1K/", None),
        ("MIR-1K/Wavfile/a.wav", Some(b"RIFFdata")),
        ("../escape.txt", Some(b"no")),
        ("MIR-1K/readme.txt", Some(b"hello")),
    ]);
    let plan = plan_archive_extraction(&bytes).unwrap();
    assert_eq!(
        step_names(&plan.steps),
        vec!["dir MIR-1K", "file MIR-1K/Wavfile/a.wav 8", "file MIR-1K/readme.txt 5"]
    );
    assert_eq!(plan.file_count, 2);
    assert!(plan.stop.is_none());
    match &plan.steps[2] {
        ExtractStep::WriteFile(_, b) => assert_eq!(b, b"hello"),
        _ => panic!("expected a file"),
    }
}

#[test]
fn empty_archive_plans_nothing() {
    let plan = plan_archive_extraction(&archive(&[])).unwrap();
    assert!(plan.steps.is_empty());
    assert_eq!(plan.file_count, 0);
    assert!(plan.stop.is_none());
}

#[test]
fn non_zip_bytes_are_refused() {
    assert!(plan_archive_extraction(b"not a zip archive").is_err());
    assert!(plan_archive_extraction(&[]).is_err());
}

#[test]
fn unreadable_contents_stop_after_their_file() {
    let read = ArchiveRead {
        members: vec![
            member(Some("d/"), true, b"", None),
            member(Some("d/x"), false, b"ab", Some("bad crc")),
            member(Some("d/y"), false, b"cd", None),
        ],
        entry_error: Some("never reached".to_string()),
    };
    let plan = plan_extraction(read);
    assert_eq!(step_names(&plan.steps), vec!["dir d/", "file d/x 2"]);
    assert_eq!(plan.file_count, 1);
    match plan.stop {
        Some(ExtractStop::UnreadableContents { member, path, message }) => {
            assert_eq!(member, 1);
            assert_eq!(path, "d/x");
            assert_eq!(message, "bad crc");
        }
        _ => panic!("expected a contents stop"),
    }
}

#[test]
fn skipped_members_do_not_stop() {
    let read = ArchiveRead {
        members: vec![
            member(None, false, b"", Some("unreadable")),
            member(Some("d/"), true, b"", Some("unreadable")),
            member(Some("f"), false, b"z", None),
        ],
        entry_error: Some("bad header".to_string()),
    };
    let plan = plan_extraction(read);
    assert_eq!(step_names(&plan.steps), vec!["dir d/", "file f 1"]);
    assert_eq!(plan.file_count, 1);
    match plan.stop {
        Some(ExtractStop::UnreadableEntry { index, message }) => {
            assert_eq!(index, 3);
            assert_eq!(message, "bad header");
        }
        _ => panic!("expected an entry stop"),
    }
}
