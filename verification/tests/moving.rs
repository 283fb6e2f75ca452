use file_sorter::execution::{
    operation_error_with_rollback, DiskEvent, MoveRun, MoveStep,
};
use file_sorter::history::{
    history_path, not_writable, probe_path, probe_stays, HistoryStep, HistoryWriter, HISTORY_FILE,
};
use file_sorter::moves::{
    candidate_path, conflict_free_reserved, included_moves, reversed_moves, Keys, PlannedMove,
};
use file_sorter::paths::Style;
use file_sorter::planning::{PlanStep, Planner};
use file_sorter::records::{AiStatus, Confidence, PlanItem};
use file_sorter::scan::skip_file;
use std::collections::{BTreeMap, BTreeSet};

const ROOT: &str = "/tmp/root";

#[derive(Default)]
struct Disk {
    files: BTreeMap<String, String>,
    folders: BTreeSet<String>,
    full: bool,
}

impl Disk {
    fn new(files: &[(&str, &str)]) -> Disk {
        let mut disk = Disk::default();
        for (path, content) in files {
            disk.create_folder(path.rsplit_once('/').unwrap().0).unwrap();
            disk.files.insert(path.to_string(), content.to_string());
        }
        disk
    }

    fn create_folder(&mut self, path: &str) -> Result<(), String> {
        let mut part = String::new();
        for name in path.split('/').skip(1) {
            part = format!("{part}/{name}");
            if self.files.contains_key(&part) {
                return Err("Not a directory".into());
            }
            self.folders.insert(part.clone());
        }
        Ok(())
    }

    fn holds(&self, path: &str) -> bool {
        self.files.contains_key(path) || self.folders.contains(path)
    }

    fn rename(&mut self, from: &str, to: &str) -> Result<(), String> {
        match self.files.remove(from) {
            Some(content) => {
                self.files.insert(to.to_string(), content);
                Ok(())
            }
            None => Err("No such file".into()),
        }
    }

    fn write(&mut self, path: &str, content: &str) -> Result<(), String> {
        if self.full {
            return Err("No space left".into());
        }
        self.files.insert(path.to_string(), content.to_string());
        Ok(())
    }
}

fn event(result: Result<(), String>) -> DiskEvent {
    match result {
        Ok(()) => DiskEvent::Done,
        Err(error) => DiskEvent::Failed(error),
    }
}

fn plan(disk: &Disk, undo: bool, wishes: Vec<PlannedMove>) -> Result<Vec<PlannedMove>, String> {
    let (mut planner, mut step) = Planner::begin(Style::Unix, ROOT.into(), undo, wishes);
    loop {
        step = match step {
            PlanStep::Locate(path) => {
                if disk.files.contains_key(&path) {
                    planner.on_located(Ok(path))
                } else {
                    planner.on_located(Err("No such file".into()))
                }
            }
            PlanStep::Probe(path) => {
                assert!(planner.can_go_on());
                planner.on_probed(disk.holds(&path))
            }
            PlanStep::Planned => return Ok(planner.into_moves()),
            PlanStep::Refused(message) => return Err(message),
        };
    }
}

fn save_history(disk: &mut Disk, content: &str) -> Result<(), String> {
    let (mut writer, mut step) = HistoryWriter::begin(Style::Unix, ROOT);
    loop {
        let came = match step {
            HistoryStep::Write(path) => event(disk.write(&path, content)),
            HistoryStep::Check(path) => DiskEvent::Checked(disk.holds(&path)),
            HistoryStep::Rename(from, to) => event(disk.rename(&from, &to)),
            HistoryStep::Remove(path) => {
                disk.files.remove(&path);
                DiskEvent::Done
            }
            HistoryStep::Saved => return Ok(()),
            HistoryStep::Failed(error) => return Err(error),
        };
        step = writer.on_event(came);
    }
}

fn execute(disk: &mut Disk, undo: bool, moves: Vec<PlannedMove>) -> Result<usize, String> {
    let history: Vec<String> = moves
        .iter()
        .map(|one| format!("{}>{}", one.from, one.to))
        .collect();
    let (mut run, mut step) = MoveRun::begin(Style::Unix, moves, undo);
    loop {
        let came = match step {
            MoveStep::CreateFolder(path) => event(disk.create_folder(&path)),
            MoveStep::Check(path) => DiskEvent::Checked(disk.holds(&path)),
            MoveStep::Rename(one) => event(disk.rename(&one.from, &one.to)),
            MoveStep::Seal => {
                if undo {
                    match disk.files.remove(&history_path(Style::Unix, ROOT)) {
                        Some(_) => DiskEvent::Done,
                        None => DiskEvent::Failed("No such file".into()),
                    }
                } else {
                    event(save_history(disk, &history.join("\n")))
                }
            }
            MoveStep::Done(count) => return Ok(count),
            MoveStep::Failed(message) => return Err(message),
        };
        step = run.on_event(came);
    }
}

fn apply(disk: &mut Disk, items: &Vec<PlanItem>) -> Result<usize, String> {
    let moves = plan(disk, false, included_moves(items))?;
    execute(disk, false, moves)
}

fn undo(disk: &mut Disk) -> Result<usize, String> {
    let records: Vec<PlannedMove> = disk.files[&history_path(Style::Unix, ROOT)]
        .lines()
        .map(|line| {
            let (from, to) = line.split_once('>').unwrap();
            PlannedMove {
                from: from.into(),
                to: to.into(),
            }
        })
        .collect();
    let moves = plan(disk, true, reversed_moves(&records))?;
    execute(disk, true, moves)
}

fn item(source: &str, target: &str) -> PlanItem {
    PlanItem {
        id: "id".into(),
        source: source.into(),
        relative_path: source.trim_start_matches("/tmp/root/").into(),
        target: target.into(),
        category: "Работа".into(),
        explanation: "Решение модели".into(),
        confidence: Confidence {
            bits: 0.9f32.to_bits(),
        },
        included: true,
        warning: None,
        ai_status: AiStatus::Processed,
        ai_error: None,
    }
}

fn pair(from: &str, to: &str) -> PlannedMove {
    PlannedMove {
        from: from.into(),
        to: to.into(),
    }
}

#[test]
fn apply_and_undo_restores_the_original_file() {
    let source = "/tmp/root/входящие/file.txt";
    let mut disk = Disk::new(&[(source, "test")]);
    let items = vec![item(
        source,
        "AI Sorted/Работа/Текст/2026/08/входящие/file.txt",
    )];
    assert_eq!(apply(&mut disk, &items).unwrap(), 1);
    assert!(!disk.holds(source));
    assert!(disk.holds("/tmp/root/AI Sorted/Работа/Текст/2026/08/входящие/file.txt"));
    assert_eq!(undo(&mut disk).unwrap(), 1);
    assert_eq!(disk.files[source], "test");
    assert!(!disk.holds(&format!("{ROOT}/{HISTORY_FILE}")));
    assert_eq!(disk.files.len(), 1);
}

#[test]
fn existing_target_gets_a_conflict_suffix() {
    let source = "/tmp/root/file.txt";
    let target = "/tmp/root/AI Sorted/Работа/Текст/2026/08/file.txt";
    let mut disk = Disk::new(&[(source, "new"), (target, "existing")]);
    let items = vec![item(source, "AI Sorted/Работа/Текст/2026/08/file.txt")];
    assert_eq!(apply(&mut disk, &items).unwrap(), 1);
    assert_eq!(
        disk.files["/tmp/root/AI Sorted/Работа/Текст/2026/08/file (2).txt"],
        "new"
    );
    assert_eq!(disk.files[target], "existing");
}

#[test]
fn planned_destinations_are_reserved_case_insensitively() {
    let mut reserved = Keys::new();
    let mut free = |path: &str| {
        (1..)
            .map(|number| candidate_path(Style::Unix, path, number))
            .find(|place| conflict_free_reserved(place, false, &mut reserved))
            .unwrap()
    };
    let first = free("/tmp/case/Report.txt");
    let second = free("/tmp/case/report.txt");
    assert_eq!(
        std::path::Path::new(&first).file_name().unwrap(),
        "Report.txt"
    );
    assert_eq!(
        std::path::Path::new(&second).file_name().unwrap(),
        "report (2).txt"
    );
}

#[test]
fn apply_rolls_back_files_when_a_later_move_fails() {
    let first = "/tmp/root/incoming/first.txt";
    let second = "/tmp/root/incoming/second.txt";
    let mut disk = Disk::new(&[
        (first, "first"),
        (second, "second"),
        ("/tmp/root/blocked", "not a directory"),
    ]);
    let items = vec![
        item(first, "AI Sorted/Работа/first.txt"),
        item(second, "blocked/sub/second.txt"),
    ];
    let error = apply(&mut disk, &items).unwrap_err();
    assert!(error.contains("возвращены обратно"), "{error}");
    assert_eq!(
        error,
        "Не удалось создать целевую папку: Not a directory. Уже перемещённые файлы возвращены обратно"
    );
    assert_eq!(disk.files[first], "first");
    assert_eq!(disk.files[second], "second");
    assert!(!disk.holds(&history_path(Style::Unix, ROOT)));
}

#[test]
fn undo_rolls_back_restores_when_a_later_restore_fails() {
    let current_first = "/tmp/root/AI Sorted/first.txt";
    let current_second = "/tmp/root/AI Sorted/second.txt";
    let history = format!(
        "/tmp/root/blocked/sub/second.txt>{current_second}\n/tmp/root/incoming/first.txt>{current_first}"
    );
    let mut disk = Disk::new(&[
        (current_first, "first"),
        (current_second, "second"),
        ("/tmp/root/blocked", "not a directory"),
    ]);
    disk.files.insert(history_path(Style::Unix, ROOT), history);
    let error = undo(&mut disk).unwrap_err();
    assert!(error.contains("возвращены обратно"), "{error}");
    assert_eq!(disk.files[current_first], "first");
    assert_eq!(disk.files[current_second], "second");
    assert!(!disk.holds("/tmp/root/incoming/first.txt"));
    assert!(disk.holds(&history_path(Style::Unix, ROOT)));
}

#[test]
fn plans_refuse_what_leaves_the_root() {
    let disk = Disk::new(&[("/tmp/root/a.txt", "a"), ("/tmp/other/b.txt", "b")]);
    assert_eq!(
        plan(&disk, false, vec![pair("/tmp/other/b.txt", "x.txt")]).unwrap_err(),
        "Путь выходит за пределы выбранной папки"
    );
    assert_eq!(
        plan(&disk, false, vec![pair("/tmp/root/a.txt", "../x.txt")]).unwrap_err(),
        "Недопустимый целевой путь"
    );
    assert_eq!(
        plan(&disk, true, vec![pair("/tmp/root/a.txt", "/tmp/x.txt")]).unwrap_err(),
        "Путь выходит за пределы выбранной папки"
    );
    assert_eq!(
        plan(&disk, false, vec![pair("/tmp/root/none.txt", "x.txt")]).unwrap_err(),
        "No such file"
    );
}

#[test]
fn plans_refuse_a_file_that_comes_twice() {
    let disk = Disk::new(&[("/tmp/root/a.txt", "a")]);
    let twice = || {
        vec![
            pair("/tmp/root/a.txt", "x.txt"),
            pair("/tmp/root/a.txt", "y.txt"),
        ]
    };
    assert_eq!(
        plan(&disk, false, twice()).unwrap_err(),
        "Один исходный файл добавлен в план несколько раз"
    );
    assert_eq!(
        plan(&disk, true, twice()).unwrap_err(),
        "Журнал отмены содержит повторяющийся файл"
    );
}

#[test]
fn plans_leave_out_what_is_in_place_or_not_wanted() {
    let mut disk = Disk::new(&[("/tmp/root/a.txt", "a"), ("/tmp/root/b.txt", "b")]);
    let mut items = vec![
        item("/tmp/root/a.txt", "a.txt"),
        item("/tmp/root/b.txt", "c.txt"),
    ];
    items[1].included = false;
    assert_eq!(included_moves(&items).len(), 1);
    assert_eq!(apply(&mut disk, &items).unwrap(), 0);
    assert!(!disk.holds(&history_path(Style::Unix, ROOT)));
}

#[test]
fn a_file_that_appears_is_not_overwritten() {
    let (mut run, step) = MoveRun::begin(Style::Unix, vec![pair("/tmp/root/a", "/tmp/root/b")], false);
    assert!(matches!(step, MoveStep::CreateFolder(path) if path == "/tmp/root"));
    let step = run.on_event(DiskEvent::Done);
    assert!(matches!(step, MoveStep::Check(path) if path == "/tmp/root/b"));
    let step = run.on_event(DiskEvent::Checked(true));
    match step {
        MoveStep::Failed(message) => assert_eq!(
            message,
            "Целевой файл появился после проверки конфликтов: операция остановлена, чтобы не перезаписать существующий файл. Файлы не перемещались"
        ),
        _ => panic!("the run stops"),
    }
}

#[test]
fn files_that_cannot_be_brought_back_are_counted() {
    let moves = vec![
        pair("/tmp/root/a", "/tmp/root/x/a"),
        pair("/tmp/root/b", "/tmp/root/x/b"),
    ];
    let (mut run, mut step) = MoveRun::begin(Style::Unix, moves, false);
    let mut renames = 0;
    let message = loop {
        step = match step {
            MoveStep::CreateFolder(_) => run.on_event(DiskEvent::Done),
            MoveStep::Check(path) => {
                let there = renames >= 2 && path == "/tmp/root/x/b";
                run.on_event(DiskEvent::Checked(there))
            }
            MoveStep::Rename(_) => {
                renames += 1;
                if renames <= 2 {
                    run.on_event(DiskEvent::Done)
                } else {
                    run.on_event(DiskEvent::Failed("busy".into()))
                }
            }
            MoveStep::Seal => run.on_event(DiskEvent::Failed("No space left".into())),
            MoveStep::Done(_) => panic!("the run fails"),
            MoveStep::Failed(message) => break message,
        };
    };
    assert_eq!(
        message,
        "Не удалось сохранить журнал отмены: No space left. ВНИМАНИЕ: автоматический откат выполнен не полностью (не удалось вернуть файлов: 2)"
    );
    assert_eq!(
        operation_error_with_rollback("a", "b", 3, 1),
        "a: b. ВНИМАНИЕ: автоматический откат выполнен не полностью (не удалось вернуть файлов: 1)"
    );
}

#[test]
fn a_file_goes_back_only_to_a_place_found_free() {
    for taken in [false, true] {
        let moves = vec![pair("/tmp/root/a", "/tmp/root/x/a")];
        let (mut run, mut step) = MoveRun::begin(Style::Unix, moves, false);
        let mut seen = Vec::new();
        let mut sealed = false;
        loop {
            step = match step {
                MoveStep::CreateFolder(path) => {
                    seen.push(format!("folder {path}"));
                    run.on_event(DiskEvent::Done)
                }
                MoveStep::Check(path) => {
                    seen.push(format!("check {path}"));
                    let found = sealed && (taken || path == "/tmp/root/x/a");
                    run.on_event(DiskEvent::Checked(found))
                }
                MoveStep::Rename(one) => {
                    seen.push(format!("rename {} {}", one.from, one.to));
                    run.on_event(DiskEvent::Done)
                }
                MoveStep::Seal => {
                    sealed = true;
                    run.on_event(DiskEvent::Failed("busy".into()))
                }
                MoveStep::Done(_) => panic!("the run fails"),
                MoveStep::Failed(_) => break,
            };
        }
        let mut expected = vec![
            "folder /tmp/root/x",
            "check /tmp/root/x/a",
            "rename /tmp/root/a /tmp/root/x/a",
            "check /tmp/root/a",
        ];
        if !taken {
            expected.push("check /tmp/root/x/a");
            expected.push("folder /tmp/root");
            expected.push("rename /tmp/root/x/a /tmp/root/a");
        }
        assert_eq!(seen, expected);
    }
}

#[test]
fn a_failed_history_brings_the_files_back() {
    let mut disk = Disk::new(&[("/tmp/root/a.txt", "a")]);
    disk.full = true;
    let error = apply(&mut disk, &vec![item("/tmp/root/a.txt", "b.txt")]).unwrap_err();
    assert_eq!(
        error,
        "Не удалось сохранить журнал отмены: No space left. Уже перемещённые файлы возвращены обратно"
    );
    assert_eq!(disk.files["/tmp/root/a.txt"], "a");
    assert_eq!(disk.files.len(), 1);
}

#[test]
fn a_history_that_cannot_be_removed_brings_the_files_back() {
    let mut disk = Disk::new(&[("/tmp/root/a.txt", "a")]);
    let moves = plan(&disk, true, vec![pair("/tmp/root/a.txt", "/tmp/root/b.txt")]).unwrap();
    let error = execute(&mut disk, true, moves).unwrap_err();
    assert_eq!(
        error,
        "Не удалось удалить использованный журнал отмены: No such file. Уже перемещённые файлы возвращены обратно"
    );
    assert_eq!(disk.files["/tmp/root/a.txt"], "a");
    assert_eq!(execute(&mut disk, false, Vec::new()).unwrap(), 0);
}

#[test]
fn the_last_history_replaces_the_one_before() {
    let mut disk = Disk::new(&[("/tmp/root/x", "x")]);
    save_history(&mut disk, "one").unwrap();
    assert_eq!(disk.files[&history_path(Style::Unix, ROOT)], "one");
    save_history(&mut disk, "two").unwrap();
    assert_eq!(disk.files[&history_path(Style::Unix, ROOT)], "two");
    assert_eq!(disk.files.len(), 2);
    disk.full = true;
    assert_eq!(save_history(&mut disk, "three").unwrap_err(), "No space left");
    assert_eq!(disk.files[&history_path(Style::Unix, ROOT)], "two");
}

#[test]
fn an_old_history_is_put_back() {
    let (mut writer, _) = HistoryWriter::begin_as(Style::Unix, ROOT, "1", "2");
    let step = writer.on_event(DiskEvent::Done);
    assert!(matches!(step, HistoryStep::Check(_)));
    let step = writer.on_event(DiskEvent::Checked(true));
    let backup = format!("{ROOT}/{HISTORY_FILE}.2.bak");
    let temporary = format!("{ROOT}/{HISTORY_FILE}.1.tmp");
    let history = history_path(Style::Unix, ROOT);
    assert!(matches!(step, HistoryStep::Rename(from, to) if from == history && to == backup));
    let step = writer.on_event(DiskEvent::Done);
    assert!(matches!(step, HistoryStep::Rename(from, to) if from == temporary && to == history));
    let step = writer.on_event(DiskEvent::Failed("busy".into()));
    assert!(matches!(step, HistoryStep::Rename(from, to) if from == backup && to == history));
    let step = writer.on_event(DiskEvent::Done);
    assert!(matches!(step, HistoryStep::Remove(path) if path == temporary));
    let step = writer.on_event(DiskEvent::Done);
    assert!(matches!(step, HistoryStep::Failed(error) if error == "busy"));
}

#[test]
fn own_files_are_not_sorted() {
    let probe = probe_path(Style::Unix, ROOT);
    assert!(probe.starts_with("/tmp/root/.ai-file-sorter-write-test-"));
    assert_eq!(probe.len(), "/tmp/root/.ai-file-sorter-write-test-".len() + 36);
    assert_ne!(probe, probe_path(Style::Unix, ROOT));
    assert!(skip_file(Style::Unix, &probe));
    assert!(skip_file(Style::Unix, &history_path(Style::Unix, ROOT)));
    assert_eq!(
        not_writable("x"),
        "Выбранная папка или диск недоступны для записи: x. Файлы не перемещались"
    );
    assert_eq!(
        probe_stays("x"),
        "Проверочный файл создан, но не удалён: x. Сортировка не запускалась"
    );
}

#[test]
fn numbered_places_keep_their_extension() {
    assert_eq!(candidate_path(Style::Unix, "/a/b.tar.gz", 1), "/a/b.tar.gz");
    assert_eq!(candidate_path(Style::Unix, "/a/b.tar.gz", 2), "/a/b.tar (2).gz");
    assert_eq!(candidate_path(Style::Unix, "/a/.hidden", 3), "/a/.hidden (3)");
    assert_eq!(candidate_path(Style::Unix, "/a/b", 12), "/a/b (12)");
}

#[test]
fn moves_are_undone_the_other_way_round() {
    let back = reversed_moves(&vec![pair("a", "b"), pair("c", "d")]);
    let shown: Vec<(String, String)> = back.into_iter().map(|one| (one.from, one.to)).collect();
    assert_eq!(
        shown,
        vec![("d".into(), "c".into()), ("b".into(), "a".into())]
    );
}

#[test]
fn windows_plans_find_the_least_free_place() {
    let root = r"\\?\C:\Selected";
    let source = r"\\?\C:\Selected\sub\file.txt";
    let wishes = vec![pair(source, r"AI Sorted\Работа\file.txt")];
    let (mut planner, step) = Planner::begin(Style::Windows, root.into(), false, wishes);
    assert!(matches!(step, PlanStep::Locate(path) if path == source));
    let step = planner.on_located(Ok(source.into()));
    let first = r"\\?\C:\Selected\AI Sorted\Работа\file.txt";
    assert!(matches!(step, PlanStep::Probe(path) if path == first));
    let step = planner.on_probed(true);
    let second = r"\\?\C:\Selected\AI Sorted\Работа\file (2).txt";
    assert!(matches!(step, PlanStep::Probe(path) if path == second));
    let step = planner.on_probed(true);
    let third = r"\\?\C:\Selected\AI Sorted\Работа\file (3).txt";
    assert!(matches!(step, PlanStep::Probe(path) if path == third));
    let step = planner.on_probed(false);
    assert!(matches!(step, PlanStep::Planned));
    let moves = planner.into_moves();
    assert_eq!(moves.len(), 1);
    assert_eq!(moves[0].from, source);
    assert_eq!(moves[0].to, third);
    let (_, step) = MoveRun::begin(Style::Windows, moves, false);
    let folder = r"\\?\C:\Selected\AI Sorted\Работа";
    assert!(matches!(step, MoveStep::CreateFolder(path) if path == folder));
    assert_eq!(
        history_path(Style::Windows, root),
        r"\\?\C:\Selected\.ai-file-sorter-last-operation.json"
    );
}

#[test]
fn windows_files_outside_the_root_are_refused() {
    let wishes = vec![pair(r"\\?\D:\other\a.txt", "a.txt")];
    let (mut planner, _) =
        Planner::begin(Style::Windows, r"\\?\C:\Selected".into(), false, wishes);
    let step = planner.on_located(Ok(r"\\?\D:\other\a.txt".into()));
    assert!(matches!(step, PlanStep::Refused(message)
        if message == "Путь выходит за пределы выбранной папки"));
}
