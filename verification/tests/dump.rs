use dbgtools_win::minidump::{joined, DumpAction, DumpEvent, DumpInfo, DumpType};
use dbgtools_win::Error;

fn sequenced(dir: Option<&str>, name: Option<&str>) -> DumpInfo {
    DumpInfo {
        dumpsdir: dir.map(|d| d.to_string()),
        name: name.map(|n| n.to_string()),
        seq: true,
        mdtype: DumpType::FullMem,
    }
}

#[test]
fn default_dump_is_plain() {
    let info = DumpInfo::default();
    assert_eq!(info.dumpsdir, None);
    assert_eq!(info.name, None);
    assert!(!info.seq);
    assert_eq!(info.mdtype, DumpType::Normal);
    assert_eq!(info.base_name(), "minidump");
}

#[test]
fn base_name_is_the_one_asked_for() {
    assert_eq!(sequenced(None, Some("myapp")).base_name(), "myapp");
    assert_eq!(sequenced(None, None).base_name(), "minidump");
}

#[test]
fn clone_keeps_every_field() {
    let info = sequenced(Some("C:\\Temp"), Some("myapp"));
    assert_eq!(info.clone(), info);
}

#[test]
fn begin_asks_for_the_working_directory() {
    assert_eq!(DumpInfo::default().next(DumpEvent::Begin), DumpAction::WorkingDir);
    assert_eq!(sequenced(None, None).next(DumpEvent::Begin), DumpAction::WorkingDir);
}

#[test]
fn begin_with_a_directory() {
    let plain = DumpInfo { dumpsdir: Some("C:\\Temp".to_string()), ..DumpInfo::default() };
    assert_eq!(
        plain.next(DumpEvent::Begin),
        DumpAction::Create { dir: "C:\\Temp".to_string(), file: "minidump.dmp".to_string() }
    );
    let numbered = sequenced(Some("C:\\Temp"), Some("myapp"));
    assert_eq!(numbered.next(DumpEvent::Begin), DumpAction::List { dir: "C:\\Temp".to_string() });
}

#[test]
fn working_directory_known() {
    let plain = DumpInfo { name: Some("myapp".to_string()), ..DumpInfo::default() };
    assert_eq!(
        plain.next(DumpEvent::WorkingDir(Ok("/work".to_string()))),
        DumpAction::Create { dir: "/work".to_string(), file: "myapp.dmp".to_string() }
    );
    assert_eq!(
        sequenced(None, None).next(DumpEvent::WorkingDir(Ok("/work".to_string()))),
        DumpAction::List { dir: "/work".to_string() }
    );
}

#[test]
fn working_directory_unknown_is_an_io_failure() {
    let failure = Error::IO("no such directory".to_string());
    assert_eq!(
        DumpInfo::default().next(DumpEvent::WorkingDir(Err(failure))),
        DumpAction::Finish(Err(Error::IO("no such directory".to_string())))
    );
}

#[test]
fn listing_picks_the_file_name() {
    let info = sequenced(None, Some("myapp"));
    let listed = DumpEvent::Listed {
        dir: ".".to_string(),
        names: Ok(vec!["myapp-0000.dmp".to_string(), "myapp-0001.dmp".to_string()]),
    };
    assert_eq!(
        info.next(listed),
        DumpAction::Create { dir: ".".to_string(), file: "myapp-0002.dmp".to_string() }
    );
    let empty = DumpEvent::Listed { dir: ".".to_string(), names: Ok(Vec::new()) };
    assert_eq!(
        sequenced(None, None).next(empty),
        DumpAction::Create { dir: ".".to_string(), file: "minidump-0000.dmp".to_string() }
    );
}

#[test]
fn failed_listing_is_a_naming_failure() {
    let listed = DumpEvent::Listed {
        dir: "/gone".to_string(),
        names: Err("directory not found".to_string()),
    };
    assert_eq!(
        sequenced(None, None).next(listed),
        DumpAction::Finish(Err(Error::BadFormat("directory not found".to_string())))
    );
}

#[test]
fn created_file_is_written_with_the_kind_asked_for() {
    assert_eq!(
        DumpInfo::default().next(DumpEvent::Created(Ok(()))),
        DumpAction::Write { kind: DumpType::Normal }
    );
    assert_eq!(
        sequenced(None, None).next(DumpEvent::Created(Ok(()))),
        DumpAction::Write { kind: DumpType::FullMem }
    );
}

#[test]
fn failed_create_and_write_are_dump_failures() {
    assert_eq!(
        DumpInfo::default().next(DumpEvent::Created(Err("access denied".to_string()))),
        DumpAction::Finish(Err(Error::MiniDump("access denied".to_string())))
    );
    assert_eq!(
        DumpInfo::default().next(DumpEvent::Written(Err("disk full".to_string()))),
        DumpAction::Finish(Err(Error::MiniDump("disk full".to_string())))
    );
}

#[test]
fn written_dump_is_success() {
    assert_eq!(DumpInfo::default().next(DumpEvent::Written(Ok(()))), DumpAction::Finish(Ok(())));
}

fn run(info: &DumpInfo, dir: &mut Vec<String>) -> Result<(), Error> {
    let mut event = DumpEvent::Begin;
    loop {
        event = match info.next(event) {
            DumpAction::WorkingDir => DumpEvent::WorkingDir(Ok(".".to_string())),
            DumpAction::List { dir: d } => DumpEvent::Listed { dir: d, names: Ok(dir.clone()) },
            DumpAction::Create { dir: _, file } => {
                if !dir.contains(&file) {
                    dir.push(file);
                }
                DumpEvent::Created(Ok(()))
            }
            DumpAction::Write { kind: _ } => DumpEvent::Written(Ok(())),
            DumpAction::Finish(r) => return r,
        };
    }
}

#[test]
fn three_panics_with_sequence_numbers() {
    let info = DumpInfo { seq: true, dumpsdir: Some(".".to_string()), ..DumpInfo::default() };
    let mut dir: Vec<String> = Vec::new();
    assert_eq!(run(&info, &mut dir), Ok(()));
    assert_eq!(dir, vec!["minidump-0000.dmp".to_string()]);
    assert_eq!(run(&info, &mut dir), Ok(()));
    assert_eq!(dir, vec!["minidump-0000.dmp".to_string(), "minidump-0001.dmp".to_string()]);
    dir.remove(0);
    assert_eq!(run(&info, &mut dir), Ok(()));
    assert_eq!(dir, vec!["minidump-0001.dmp".to_string(), "minidump-0000.dmp".to_string()]);
}

#[test]
fn plain_dump_overwrites_its_file() {
    let info = DumpInfo::default();
    let mut dir: Vec<String> = Vec::new();
    assert_eq!(run(&info, &mut dir), Ok(()));
    assert_eq!(run(&info, &mut dir), Ok(()));
    assert_eq!(dir, vec!["minidump.dmp".to_string()]);
}

#[test]
fn joined_hands_the_result_on() {
    assert_eq!(joined(Some(Ok(()))), Ok(()));
    assert_eq!(
        joined(Some(Err(Error::BadFormat("x".to_string())))),
        Err(Error::BadFormat("x".to_string()))
    );
}

#[test]
fn joined_without_a_result_is_a_dump_failure() {
    assert_eq!(
        joined(None),
        Err(Error::MiniDump("the dump thread panicked".to_string()))
    );
}

#[test]
fn error_texts() {
    assert_eq!(
        Error::MiniDump("disk full".to_string()).to_string(),
        "Unable to create minidump; disk full"
    );
    assert_eq!(Error::IO("not found".to_string()).to_string(), "I/O error; not found");
    assert_eq!(
        Error::BadFormat("bad name".to_string()).to_string(),
        "Bad format error; bad name"
    );
    assert_eq!(Error::IO(String::new()).to_string(), "I/O error; ");
}

#[test]
fn io_error_becomes_io_failure() {
    let source = std::io::Error::new(std::io::ErrorKind::Other, "the pipe broke");
    assert_eq!(Error::from(source), Error::IO("the pipe broke".to_string()));
    let source = std::io::Error::new(std::io::ErrorKind::NotFound, "gone");
    let converted: Error = source.into();
    assert_eq!(converted.to_string(), "I/O error; gone");
}

#[test]
fn io_failure_keeps_the_description_as_it_is() {
    assert_eq!(Error::io("disk gone".to_string()), Error::IO("disk gone".to_string()));
    assert_eq!(Error::io("  padded \n".to_string()), Error::IO("  padded \n".to_string()));
    assert_eq!(Error::io(String::new()), Error::IO(String::new()));
    let source = std::io::Error::new(std::io::ErrorKind::Other, "disk gone");
    assert_eq!(Error::from(source), Error::io("disk gone".to_string()));
}
