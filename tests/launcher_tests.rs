use std::collections::HashMap;
use std::io::{Cursor, Write};

use launcher::archive::{read_archive, ArchiveEntry};
use launcher::error::LaunchError;
use launcher::layout::{
    backend_dir_path, backend_launch, backend_script_path, frontend_launch, frontend_path,
    interpreter_path, WARMUP_MILLIS,
};
use launcher::plan::{plan_entry, FsAction};
use launcher::policy::{decide, exec_mode_entry, runtime_entry, skip_pass, Decision, Policy};
use launcher::startup::{next, start, Command, Event, Phase};
use launcher::text::{contains, ends_with, matches_at, same_text, starts_with};
use zip::write::SimpleFileOptions;
use zip::{CompressionMethod, ZipWriter};

#[derive(Clone, Debug, PartialEq)]
enum Slot {
    Dir,
    File(Vec<u8>),
}

#[derive(Default)]
struct FakeDisk {
    nodes: HashMap<String, Slot>,
    executable: Vec<String>,
    writes: usize,
}

impl FakeDisk {
    fn add_ancestors(&mut self, path: &str) {
        for (i, c) in path.char_indices() {
            if c == '/' && i + 1 < path.len() {
                self.nodes.entry(path[..=i].to_string()).or_insert(Slot::Dir);
            }
        }
    }

    fn apply(&mut self, acts: Vec<FsAction>) {
        for a in acts {
            self.writes += 1;
            match a {
                FsAction::CreateDir(p) => {
                    self.add_ancestors(&p);
                    self.nodes.insert(p, Slot::Dir);
                }
                FsAction::WriteFile(p, d) => {
                    self.add_ancestors(&p);
                    self.nodes.insert(p, Slot::File(d));
                }
                FsAction::SetExecMode(p) => {
                    if !self.executable.contains(&p) {
                        self.executable.push(p);
                    }
                }
            }
        }
    }

    fn pass(&mut self, policy: Policy, entries: &[ArchiveEntry]) {
        let gate = skip_pass(
            policy,
            self.nodes.contains_key(frontend_path()),
            self.nodes.contains_key(backend_dir_path()),
            self.nodes.contains_key(interpreter_path()),
        );
        if gate {
            return;
        }
        for e in entries {
            let exists = self.nodes.contains_key(&e.name);
            let copy = ArchiveEntry { name: e.name.clone(), is_dir: e.is_dir, data: e.data.clone() };
            let acts = plan_entry(policy, copy, exists);
            self.apply(acts);
        }
    }
}

fn bytes_of(len: usize, seed: u8) -> Vec<u8> {
    (0..len).map(|i| seed.wrapping_add(i as u8)).collect()
}

fn build_zip(files: &[(&str, Vec<u8>)], dirs: &[&str]) -> Vec<u8> {
    let mut w = ZipWriter::new(Cursor::new(Vec::new()));
    let opts = SimpleFileOptions::default().compression_method(CompressionMethod::Stored);
    for d in dirs {
        w.add_directory(*d, opts).unwrap();
    }
    for (name, data) in files {
        w.start_file(*name, opts).unwrap();
        w.write_all(data).unwrap();
    }
    w.finish().unwrap().into_inner()
}

fn sample_zip() -> Vec<u8> {
    build_zip(
        &[
            ("MindModel.exe", bytes_of(10, 1)),
            ("backend/dist/index.js", bytes_of(20, 50)),
            ("node/node.exe", bytes_of(1000, 7)),
        ],
        &[],
    )
}

fn run_events(events: &[Event]) -> (Phase, Vec<Command>) {
    let (mut phase, first) = start();
    let mut cmds = vec![first];
    for ev in events {
        let (p, c) = next(phase, *ev);
        phase = p;
        cmds.push(c);
    }
    (phase, cmds)
}

#[test]
fn end_to_end_scenario() {
    let entries = read_archive(sample_zip()).unwrap();
    assert_eq!(entries.len(), 3);
    let mut disk = FakeDisk::default();
    disk.pass(Policy::UpdateAware, &entries);
    assert_eq!(disk.nodes.len(), 6);
    assert_eq!(disk.nodes["backend/"], Slot::Dir);
    assert_eq!(disk.nodes["backend/dist/"], Slot::Dir);
    assert_eq!(disk.nodes["node/"], Slot::Dir);
    assert_eq!(disk.nodes["MindModel.exe"], Slot::File(bytes_of(10, 1)));
    assert_eq!(disk.nodes["backend/dist/index.js"], Slot::File(bytes_of(20, 50)));
    assert_eq!(disk.nodes["node/node.exe"], Slot::File(bytes_of(1000, 7)));

    let (phase, cmds) = run_events(&[
        Event::ExtractionDone,
        Event::BackendFiles { interpreter: true, script: true },
        Event::Spawned,
        Event::WarmupElapsed,
        Event::Spawned,
        Event::FrontendExited { status: 0 },
    ]);
    assert_eq!(phase, Phase::Finished);
    assert_eq!(
        cmds,
        vec![
            Command::Extract,
            Command::CheckBackend,
            Command::SpawnBackend,
            Command::Pause { millis: 2000 },
            Command::SpawnFrontend,
            Command::AwaitFrontend,
            Command::Finish { frontend_status: 0 },
        ]
    );
    let b = backend_launch();
    assert_eq!(b.program, "node/node.exe");
    assert_eq!(b.args, vec!["backend/dist/index.js".to_string()]);
    assert_eq!(b.cwd, "backend/");
    assert!(b.detached);
    let f = frontend_launch();
    assert_eq!(f.program, "MindModel.exe");
    assert!(f.args.is_empty());
    assert_eq!(f.cwd, ".");
    assert!(!f.detached);
}

#[test]
fn update_aware_twice_is_idempotent() {
    let entries = read_archive(build_zip(
        &[
            ("MindModel.exe", bytes_of(10, 1)),
            ("backend/dist/index.js", bytes_of(20, 50)),
            ("node/node.exe", bytes_of(1000, 7)),
            ("node/lib/x.js", bytes_of(5, 9)),
        ],
        &["node/", "backend/"],
    ))
    .unwrap();
    let mut disk = FakeDisk::default();
    disk.pass(Policy::UpdateAware, &entries);
    let after_first = disk.nodes.clone();
    let exec_first = disk.executable.clone();
    let writes_first = disk.writes;
    disk.pass(Policy::UpdateAware, &entries);
    assert_eq!(disk.nodes, after_first);
    assert_eq!(disk.executable, exec_first);
    let second = disk.writes - writes_first;
    // only the three entries outside the interpreter payload are written again
    // ("MindModel.exe" twice: content and mode)
    assert_eq!(second, 4);
    for e in &entries {
        if runtime_entry(&e.name) {
            let copy = ArchiveEntry { name: e.name.clone(), is_dir: e.is_dir, data: e.data.clone() };
            assert!(plan_entry(Policy::UpdateAware, copy, true).is_empty());
        }
    }
}

#[test]
fn runtime_payload_not_overwritten() {
    let entries = read_archive(sample_zip()).unwrap();
    let mut disk = FakeDisk::default();
    let c = b"previous interpreter".to_vec();
    disk.nodes.insert("node/node.exe".to_string(), Slot::File(c.clone()));
    disk.pass(Policy::UpdateAware, &entries);
    assert_eq!(disk.nodes["node/node.exe"], Slot::File(c));
    assert!(!disk.executable.contains(&"node/node.exe".to_string()));
}

#[test]
fn other_entry_always_overwritten() {
    let entries = read_archive(sample_zip()).unwrap();
    let mut disk = FakeDisk::default();
    disk.nodes.insert("backend/dist/index.js".to_string(), Slot::File(b"old".to_vec()));
    disk.nodes.insert("MindModel.exe".to_string(), Slot::Dir);
    disk.pass(Policy::UpdateAware, &entries);
    assert_eq!(disk.nodes["backend/dist/index.js"], Slot::File(bytes_of(20, 50)));
    assert_eq!(disk.nodes["MindModel.exe"], Slot::File(bytes_of(10, 1)));
    let acts = plan_entry(
        Policy::UpdateAware,
        ArchiveEntry { name: "backend/dist/index.js".to_string(), is_dir: false, data: vec![1, 2] },
        true,
    );
    assert_eq!(acts.len(), 1);
    match &acts[0] {
        FsAction::WriteFile(p, d) => {
            assert_eq!(p, "backend/dist/index.js");
            assert_eq!(d, &vec![1u8, 2]);
        }
        _ => panic!("expected a file write"),
    }
}

#[test]
fn first_run_gate_skips_all() {
    let entries = read_archive(sample_zip()).unwrap();
    let mut disk = FakeDisk::default();
    disk.nodes.insert("MindModel.exe".to_string(), Slot::File(vec![9]));
    disk.nodes.insert("backend/".to_string(), Slot::Dir);
    disk.nodes.insert("node/node.exe".to_string(), Slot::File(vec![8]));
    let before = disk.nodes.clone();
    disk.pass(Policy::FirstRunOnly, &entries);
    assert_eq!(disk.writes, 0);
    assert_eq!(disk.nodes, before);
    assert!(skip_pass(Policy::FirstRunOnly, true, true, true));
    assert!(!skip_pass(Policy::FirstRunOnly, true, false, true));
    assert!(!skip_pass(Policy::UpdateAware, true, true, true));
}

#[test]
fn first_run_only_fills_missing_paths() {
    let entries = read_archive(sample_zip()).unwrap();
    let mut disk = FakeDisk::default();
    disk.nodes.insert("MindModel.exe".to_string(), Slot::File(vec![9]));
    disk.pass(Policy::FirstRunOnly, &entries);
    assert_eq!(disk.nodes["MindModel.exe"], Slot::File(vec![9]));
    assert_eq!(disk.nodes["backend/dist/index.js"], Slot::File(bytes_of(20, 50)));
    assert_eq!(decide(Policy::FirstRunOnly, "anything", true), Decision::Skip);
    assert_eq!(decide(Policy::FirstRunOnly, "anything", false), Decision::Write);
}

#[test]
fn missing_backend_aborts() {
    for (interp, script) in [(false, true), (true, false), (false, false)] {
        let (phase, cmds) = run_events(&[
            Event::ExtractionDone,
            Event::BackendFiles { interpreter: interp, script },
            Event::Spawned,
            Event::WarmupElapsed,
            Event::Spawned,
        ]);
        assert_eq!(phase, Phase::Failed);
        assert_eq!(cmds[2], Command::Abort(LaunchError::BackendNotFound));
        assert!(!cmds.contains(&Command::SpawnBackend));
        assert!(!cmds.contains(&Command::SpawnFrontend));
    }
}

#[test]
fn startup_order() {
    let (_, cmds) = run_events(&[
        Event::ExtractionDone,
        Event::BackendFiles { interpreter: true, script: true },
        Event::WarmupElapsed,
        Event::Spawned,
        Event::Spawned,
        Event::WarmupElapsed,
    ]);
    let pos = |c: Command| cmds.iter().position(|x| *x == c).unwrap();
    let sb = pos(Command::SpawnBackend);
    let pause = pos(Command::Pause { millis: WARMUP_MILLIS });
    let sf = pos(Command::SpawnFrontend);
    assert!(sb < pause && pause < sf);
    assert_eq!(cmds[3], Command::Idle);
    assert_eq!(WARMUP_MILLIS, 2000);
}

#[test]
fn spawn_and_extraction_failures_abort() {
    let (p, cmds) = run_events(&[Event::ExtractionFailed(LaunchError::FilesystemError)]);
    assert_eq!(p, Phase::Failed);
    assert_eq!(cmds[1], Command::Abort(LaunchError::FilesystemError));
    let (p, cmds) = run_events(&[
        Event::ExtractionDone,
        Event::BackendFiles { interpreter: true, script: true },
        Event::SpawnFailed,
    ]);
    assert_eq!(p, Phase::Failed);
    assert_eq!(cmds[3], Command::Abort(LaunchError::ProcessSpawnError));
    let (p, cmds) = run_events(&[
        Event::ExtractionDone,
        Event::BackendFiles { interpreter: true, script: true },
        Event::Spawned,
        Event::WarmupElapsed,
        Event::SpawnFailed,
        Event::FrontendExited { status: 3 },
    ]);
    assert_eq!(p, Phase::Failed);
    assert_eq!(cmds[5], Command::Abort(LaunchError::ProcessSpawnError));
    assert_eq!(cmds[6], Command::Idle);
}

#[test]
fn frontend_status_is_reported() {
    let (p, cmds) = run_events(&[
        Event::ExtractionDone,
        Event::BackendFiles { interpreter: true, script: true },
        Event::Spawned,
        Event::WarmupElapsed,
        Event::Spawned,
        Event::FrontendExited { status: 7 },
    ]);
    assert_eq!(p, Phase::Finished);
    assert_eq!(*cmds.last().unwrap(), Command::Finish { frontend_status: 7 });
}

#[test]
fn directory_entry_recreated_harmlessly() {
    let mut disk = FakeDisk::default();
    disk.nodes.insert("backend/".to_string(), Slot::Dir);
    disk.nodes.insert("backend/keep.txt".to_string(), Slot::File(b"keep".to_vec()));
    let acts = plan_entry(
        Policy::UpdateAware,
        ArchiveEntry { name: "backend/".to_string(), is_dir: true, data: vec![] },
        true,
    );
    assert_eq!(acts.len(), 1);
    assert!(matches!(&acts[0], FsAction::CreateDir(p) if p == "backend/"));
    let before = disk.nodes.clone();
    disk.apply(acts);
    assert_eq!(disk.nodes, before);
}

#[test]
fn exec_mode_for_runtime_and_executables() {
    let acts = plan_entry(
        Policy::UpdateAware,
        ArchiveEntry { name: "node/lib/x.js".to_string(), is_dir: false, data: vec![3] },
        false,
    );
    assert_eq!(acts.len(), 2);
    assert!(matches!(&acts[1], FsAction::SetExecMode(p) if p == "node/lib/x.js"));
    assert!(exec_mode_entry("MindModel.exe"));
    assert!(exec_mode_entry("tools/nodejs/readme"));
    assert!(!exec_mode_entry("backend/dist/index.js"));
    let acts = plan_entry(
        Policy::UpdateAware,
        ArchiveEntry { name: "backend/a.js".to_string(), is_dir: false, data: vec![] },
        false,
    );
    assert_eq!(acts.len(), 1);
}

#[test]
fn runtime_entry_classification() {
    assert!(runtime_entry("node/node.exe"));
    assert!(runtime_entry("node/"));
    assert!(runtime_entry("node.exe"));
    assert!(runtime_entry("vendor/node/lib.js"));
    assert!(!runtime_entry("node"));
    assert!(!runtime_entry("nodejs/x"));
    assert!(runtime_entry("bin/node.exe"));
    assert!(!runtime_entry("bin/mynode.exe"));
    assert!(!runtime_entry("MindModel.exe"));
    assert!(!runtime_entry(""));
}

#[test]
fn decide_update_aware() {
    assert_eq!(decide(Policy::UpdateAware, "node/node.exe", true), Decision::Skip);
    assert_eq!(decide(Policy::UpdateAware, "node/node.exe", false), Decision::Write);
    assert_eq!(decide(Policy::UpdateAware, "MindModel.exe", true), Decision::Write);
}

#[test]
fn text_helpers() {
    assert!(starts_with("node/x", "node/"));
    assert!(!starts_with("nod", "node/"));
    assert!(ends_with("a.exe", ".exe"));
    assert!(!ends_with("exe", ".exe"));
    assert!(contains("a/node/b", "/node/"));
    assert!(contains("abc", ""));
    assert!(!contains("a/nod/b", "/node/"));
    assert!(matches_at("abcd", "cd", 2));
    assert!(!matches_at("abcd", "cd", 3));
    assert!(same_text("x", "x"));
    assert!(!same_text("x", "xy"));
}

#[test]
fn layout_paths() {
    assert_eq!(frontend_path(), "MindModel.exe");
    assert_eq!(backend_dir_path(), "backend/");
    assert_eq!(interpreter_path(), "node/node.exe");
    assert_eq!(backend_script_path(), "backend/dist/index.js");
}

#[test]
fn corrupt_archive_is_rejected() {
    assert_eq!(read_archive(vec![1, 2, 3, 4]).err(), Some(LaunchError::ArchiveCorrupt));
    assert_eq!(read_archive(Vec::new()).err(), Some(LaunchError::ArchiveCorrupt));
}

#[test]
fn damaged_entry_is_rejected() {
    let mut bytes = build_zip(&[("a.txt", b"HELLOWORLDHELLOWORLD".to_vec())], &[]);
    let at = bytes.windows(10).position(|w| w == b"HELLOWORLD").unwrap();
    bytes[at] = b'J';
    assert_eq!(read_archive(bytes).err(), Some(LaunchError::EntryReadError));
}

#[test]
fn archive_entries_in_order() {
    let entries = read_archive(build_zip(&[("b.txt", vec![2]), ("a.txt", vec![1, 1])], &["d/"])).unwrap();
    let names: Vec<&str> = entries.iter().map(|e| e.name.as_str()).collect();
    assert_eq!(names, vec!["d/", "b.txt", "a.txt"]);
    assert!(entries[0].is_dir);
    assert!(!entries[1].is_dir);
    assert_eq!(entries[2].data, vec![1, 1]);
}

#[test]
fn error_messages() {
    assert_eq!(LaunchError::BackendNotFound.message(), "interpreter or backend script not found");
    assert_eq!(LaunchError::ProcessSpawnError.message(), "child process could not be started");
    assert_eq!(LaunchError::FilesystemError.message(), "filesystem operation failed");
    assert_ne!(LaunchError::ArchiveCorrupt.message(), LaunchError::EntryReadError.message());
}
