use std::path::{Path, PathBuf};
use tinypngx::batch::{collect, plan, Batch, BatchAction, BatchEvent, BatchStep, Plan, Preload, TaskOutcome};
use tinypngx::client::TinifyClient;
use tinypngx::cli::{
    config_rows, preload_warning, target_directory, Args, DirectoryAction, DirectoryEvent,
    DirectorySearch, Next, Stage, StageEvent,
};
use tinypngx::clock::LocalTime;
use tinypngx::image::{is_supported, DirEntry, ImageResult, ImageSearch, SUPPORTED};
use tinypngx::state::ApiState;
use tinypngx::stats::{checked_summarize, failed_results, summarize, Summary};

fn by_path(name: &str) -> bool {
    Path::new(name)
        .extension()
        .and_then(|e| e.to_str())
        .map(|e| SUPPORTED.contains(&e.to_ascii_lowercase().as_str()))
        .unwrap_or(false)
}

#[test]
fn supported_images_by_name() {
    for name in [
        "a.png", "a.PNG", "a.JpEg", "a.jpg", "a.webp", "a.AVIF", "a.gif", "a", "png", ".png",
        "..png", "a.", "a.png.txt", "a.b.jpg", "a.pn", "a.pngx", ".a.png", "图.png", "a.图",
    ] {
        assert_eq!(is_supported(name.as_bytes()), by_path(name), "{}", name);
    }
    assert!(is_supported(b"a.png"));
    assert!(is_supported(b"\xff\xfe.png"));
    assert!(!is_supported(b"a.\xff"));
    assert!(!is_supported(b""));
    assert!(!is_supported(b".."));
}

fn entry(path: &str, is_dir: bool) -> DirEntry {
    let path = PathBuf::from(path);
    let file_name = path.file_name().unwrap().to_str().unwrap().as_bytes().to_vec();
    DirEntry { path, is_dir, file_name }
}

#[test]
fn search_finds_images_below_when_recursive() {
    let mut search = ImageSearch::new(PathBuf::from("/r"), true);
    assert_eq!(search.next_directory(), Some(PathBuf::from("/r")));
    search.add_entry(entry("/r/a.png", false));
    search.add_entry(entry("/r/sub.png", true));
    search.add_entry(entry("/r/note.txt", false));
    assert_eq!(search.next_directory(), Some(PathBuf::from("/r/sub.png")));
    search.add_entry(entry("/r/sub.png/b.JPG", false));
    assert_eq!(search.next_directory(), None);
    assert_eq!(
        search.into_images(),
        vec![PathBuf::from("/r/a.png"), PathBuf::from("/r/sub.png/b.JPG")]
    );
}

fn listing(dir: &Path) -> Vec<DirEntry> {
    match dir.to_str() {
        Some("/r") => vec![
            entry("/r/x", true),
            entry("/r/1.png", false),
            entry("/r/y", true),
            entry("/r/2.gif", false),
        ],
        Some("/r/x") => vec![entry("/r/x/3.avif", false), entry("/r/x/z", true)],
        Some("/r/x/z") => vec![entry("/r/x/z/4.jpeg", false), entry("/r/x/z/5.png", false)],
        Some("/r/y") => vec![entry("/r/y/6.webp", false)],
        _ => vec![],
    }
}

fn search_all(recursive: bool) -> (Vec<PathBuf>, Vec<PathBuf>) {
    let mut search = ImageSearch::new(PathBuf::from("/r"), recursive);
    let mut read = vec![];
    while let Some(dir) = search.next_directory() {
        for entry in listing(&dir) {
            search.add_entry(entry);
        }
        read.push(dir);
    }
    (read, search.into_images())
}

#[test]
fn whole_search_finds_each_image_once() {
    let paths = |names: &[&str]| names.iter().map(PathBuf::from).collect::<Vec<PathBuf>>();
    let (read, images) = search_all(true);
    assert_eq!(read, paths(&["/r", "/r/y", "/r/x", "/r/x/z"]));
    assert_eq!(
        images,
        paths(&["/r/1.png", "/r/y/6.webp", "/r/x/3.avif", "/r/x/z/4.jpeg", "/r/x/z/5.png"])
    );
    let (read, images) = search_all(false);
    assert_eq!(read, paths(&["/r"]));
    assert_eq!(images, paths(&["/r/1.png"]));
}

#[test]
fn search_stays_in_the_directory_otherwise() {
    let mut search = ImageSearch::new(PathBuf::from("/r"), false);
    assert!(search.next_directory().is_some());
    search.add_entry(entry("/r/sub", true));
    search.add_entry(entry("/r/a.webp", false));
    assert_eq!(search.next_directory(), None);
    assert_eq!(search.into_images(), vec![PathBuf::from("/r/a.webp")]);
}

fn result(name: &str, ok: bool, original: u64, compressed: u64) -> ImageResult {
    ImageResult::new(PathBuf::from(name), ok, name.to_string(), original, compressed)
}

#[test]
fn result_holds_what_it_is_given() {
    let r = ImageResult::new(PathBuf::from("p"), true, "m".to_string(), 10, 4);
    assert_eq!(r.path, PathBuf::from("p"));
    assert!(r.ok);
    assert_eq!(r.msg, "m");
    assert_eq!((r.original_size, r.compressed_size), (10, 4));
}

#[test]
fn summary_of_results() {
    let results = vec![
        result("a", true, 100, 40),
        result("b", false, 50, 0),
        result("c", true, 10, 10),
    ];
    let expected = Summary {
        total: 3,
        success: 2,
        failed: 1,
        total_original: 160,
        total_compressed: 50,
        total_saved: 110,
    };
    assert_eq!(summarize(&results), expected);
    assert_eq!(checked_summarize(&results), Some(expected));
    assert_eq!(failed_results(&results), vec![1]);
}

#[test]
fn summary_that_would_not_fit() {
    assert_eq!(checked_summarize(&vec![result("a", true, 1, 2)]), None);
    assert_eq!(
        checked_summarize(&vec![result("a", true, u64::MAX, 0), result("b", true, 1, 0)]),
        None
    );
    assert_eq!(checked_summarize(&vec![]).unwrap().total, 0);
}

#[test]
fn plan_of_a_run() {
    assert_eq!(plan(500, 3, false), Plan { concurrency: 200, calibration: 3 });
    assert_eq!(plan(500, 3, true), Plan { concurrency: 200, calibration: 0 });
    assert_eq!(plan(3, 3, false), Plan { concurrency: 3, calibration: 0 });
    assert_eq!(plan(4, 3, false), Plan { concurrency: 4, calibration: 3 });
    assert_eq!(plan(4, 0, false), Plan { concurrency: 4, calibration: 0 });
}

fn preload(names: &[&str]) -> Preload {
    let mut preload = Preload::new();
    for name in names {
        let data = if name.starts_with('!') { None } else { Some(name.as_bytes().to_vec()) };
        preload.add(PathBuf::from(name), data);
    }
    preload
}

#[test]
fn loaded_files_are_counted() {
    let p = preload(&["a", "!b", "c", "!d"]);
    assert_eq!(p.files.len(), 4);
    assert_eq!(p.failed, 2);
    assert_eq!(p.files[0].data.as_deref(), Some(&b"a"[..]));
    assert!(p.files[1].data.is_none());
    assert_eq!(preload_warning(2).as_deref(), Some("2 张图片预加载失败，将尝试直接处理"));
    assert_eq!(preload_warning(0), None);
}

fn state(keys: &[(&str, u32)]) -> ApiState {
    let names: Vec<String> = keys.iter().map(|(k, _)| k.to_string()).collect();
    let mut state = ApiState::new_at(LocalTime { year: 2025, month: 1, rfc3339: "t".to_string() });
    state.update_keys(&names);
    for (key, credits) in keys {
        state.update_key_credit(key, *credits);
    }
    state
}

fn credits(state: &ApiState, key: &str) -> Option<u32> {
    state.key_statuses.get(key).copied()
}

#[test]
fn run_with_calibration() {
    let mut saved = state(&[("k", 500), ("l", 7)]);
    let mut client = TinifyClient::new(vec!["k".to_string()], state(&[("k", 488), ("l", 7)]), 0);
    let step = Batch::start(preload(&["a", "b", "c"]).files, 1);
    let (batch, first) = match step {
        BatchStep::Do(batch, BatchAction::Process(files)) => (batch, files),
        _ => panic!("no work"),
    };
    assert_eq!(first.len(), 1);
    assert_eq!(first[0].path, PathBuf::from("a"));
    assert!(!batch.admits(&BatchEvent::Saved));
    let event = BatchEvent::Processed(vec![result("a", true, 1, 1)]);
    let batch = match batch.step(event, &mut saved, &client) {
        BatchStep::Do(batch, BatchAction::Save) => batch,
        _ => panic!("not saved"),
    };
    assert_eq!(credits(&saved, "k"), Some(488));
    assert_eq!(credits(&saved, "l"), Some(7));
    client.state.update_key_credit("k", 480);
    let (batch, rest) = match batch.step(BatchEvent::Saved, &mut saved, &client) {
        BatchStep::Do(batch, BatchAction::Process(files)) => (batch, files),
        _ => panic!("no work"),
    };
    assert_eq!(credits(&saved, "k"), Some(488));
    assert_eq!(rest.len(), 2);
    assert_eq!(rest[1].path, PathBuf::from("c"));
    let event = BatchEvent::Processed(vec![result("b", false, 1, 0), result("c", true, 1, 1)]);
    assert!(batch.admits(&event));
    match batch.step(event, &mut saved, &client) {
        BatchStep::Done(results) => {
            let names: Vec<&str> = results.iter().map(|r| r.msg.as_str()).collect();
            assert_eq!(names, vec!["a", "b", "c"]);
        }
        _ => panic!("not done"),
    }
    assert_eq!(credits(&saved, "k"), Some(480));
    assert_eq!(saved.metadata.last_updated, "t");
}

#[test]
fn run_that_cannot_save_fails() {
    let mut saved = state(&[]);
    let client = TinifyClient::new(vec![], state(&[]), 0);
    let batch = match Batch::start(preload(&["a", "b"]).files, 1) {
        BatchStep::Do(batch, _) => batch,
        _ => panic!("no work"),
    };
    let batch = match batch.step(BatchEvent::Processed(vec![]), &mut saved, &client) {
        BatchStep::Do(batch, _) => batch,
        _ => panic!("not saved"),
    };
    assert!(matches!(batch.step(BatchEvent::Unsaved, &mut saved, &client), BatchStep::Failed));
}

#[test]
fn run_without_calibration() {
    let mut saved = state(&[("k", 500)]);
    let client = TinifyClient::new(vec![], state(&[("k", 3)]), 0);
    let (batch, all) = match Batch::start(preload(&["a", "b"]).files, 0) {
        BatchStep::Do(batch, BatchAction::Process(files)) => (batch, files),
        _ => panic!("no work"),
    };
    assert_eq!(all.len(), 2);
    let step = batch.step(BatchEvent::Processed(vec![]), &mut saved, &client);
    assert!(matches!(step, BatchStep::Done(r) if r.is_empty()));
    assert_eq!(credits(&saved, "k"), Some(3));
}

#[test]
fn state_learns_credits_only() {
    let mut saved = state(&[("k", 500), ("gone", 1)]);
    saved.metadata.last_updated = "before".to_string();
    let client = TinifyClient::new(vec![], state(&[("k", 0), ("new", 9)]), 0);
    saved.learn(&client);
    assert_eq!(saved.key_statuses.len(), 2);
    assert_eq!(credits(&saved, "k"), Some(0));
    assert_eq!(credits(&saved, "new"), Some(9));
    assert_eq!(credits(&saved, "gone"), None);
    assert_eq!(saved.metadata.last_updated, "before");
}

#[test]
fn outcomes_are_collected() {
    let collected = collect(vec![
        TaskOutcome::Finished(result("a", true, 1, 1)),
        TaskOutcome::Errored("disk".to_string()),
        TaskOutcome::Crashed("panic".to_string()),
        TaskOutcome::Finished(result("b", false, 1, 0)),
    ]);
    assert_eq!(collected.results.len(), 2);
    assert_eq!(collected.results[1].msg, "b");
    assert_eq!(collected.complaints, vec!["处理错误: disk", "任务执行错误: panic"]);
}

#[test]
fn stages_of_a_run() {
    let mut stage = Stage::Directory;
    let mut seen = vec![stage];
    loop {
        let event = match stage {
            Stage::Keys | Stage::Images => StageEvent::Found(2),
            Stage::Confirm => StageEvent::Answered(true),
            _ => StageEvent::Done,
        };
        assert!(stage.admits(event));
        match stage.next(event) {
            Next::Go(next) => stage = next,
            end => {
                assert_eq!(end, Next::Finished);
                break;
            }
        }
        seen.push(stage);
    }
    assert_eq!(seen.len(), 11);
    assert_eq!(seen[8], Stage::Compress);
    assert_eq!(stage, Stage::Report);
}

#[test]
fn runs_that_end_early() {
    assert_eq!(Stage::Keys.next(StageEvent::Found(0)), Next::NoKeys);
    assert_eq!(Stage::Images.next(StageEvent::Found(0)), Next::NoImages);
    assert_eq!(Stage::Confirm.next(StageEvent::Answered(false)), Next::Cancelled);
    assert_eq!(Stage::Client.next(StageEvent::Failed), Next::Failed(Stage::Client));
    assert!(!Stage::Keys.admits(StageEvent::Done));
    assert_eq!(Next::NoKeys.message(), Some("Tinypng API密钥.txt 中没有找到任何 key"));
    assert_eq!(Next::NoImages.message(), Some("未找到支持的图片文件"));
    assert_eq!(Next::Cancelled.message(), Some("操作已取消"));
    assert_eq!(Next::Finished.message(), None);
    assert_eq!(Stage::Compress.context(), Some("图片压缩处理失败"));
    assert_eq!(Stage::Save.context(), None);
}

#[test]
fn rows_of_the_settings() {
    let mut state = ApiState::new_at(LocalTime { year: 2025, month: 1, rfc3339: String::new() });
    state.update_keys(&["a".to_string(), "b".to_string(), "c".to_string()]);
    state.update_key_credit("b", 7);
    state.mark_key_invalid("c");
    let args = Args {
        directory: PathBuf::from("."),
        recursive: true,
        backup: false,
        no_calibration: false,
    };
    let rows = config_rows(12, &args, &state);
    let rows: Vec<(&str, &str)> = rows.iter().map(|(a, b)| (a.as_str(), b.as_str())).collect();
    assert_eq!(
        rows,
        vec![
            ("图片数量", "12"),
            ("递归搜索", "是"),
            ("创建备份", "否"),
            ("校准模式", "开启"),
            ("可用API密钥", "2"),
            ("预估总额度", "507"),
        ]
    );
}

#[test]
fn directory_that_is_there() {
    let given = target_directory(PathBuf::from("/d"), true, PathBuf::from("/c/d"));
    let event = DirectoryEvent::LookedUp { path: given, exists: true };
    let (_, action) = DirectorySearch::Given.step(event);
    assert!(matches!(action, DirectoryAction::Canonicalize(p) if p == PathBuf::from("/d")));
}

#[test]
fn directory_that_is_asked_for() {
    let given = target_directory(PathBuf::from("d"), false, PathBuf::from("/c/d"));
    assert_eq!(given, PathBuf::from("/c/d"));
    let (search, action) =
        DirectorySearch::Given.step(DirectoryEvent::LookedUp { path: given, exists: false });
    assert!(matches!(action, DirectoryAction::Ask));
    assert!(!search.admits(&DirectoryEvent::LookedUp { path: PathBuf::new(), exists: true }));
    let (search, action) = search.step(DirectoryEvent::Text("  /e \n".to_string()));
    assert!(matches!(action, DirectoryAction::LookUp(t) if t == "/e"));
    let (_, action) =
        search.step(DirectoryEvent::LookedUp { path: PathBuf::from("/e"), exists: true });
    assert!(matches!(action, DirectoryAction::Use(p) if p == PathBuf::from("/e")));
    let (_, action) =
        search.step(DirectoryEvent::LookedUp { path: PathBuf::from("/f"), exists: false });
    assert!(matches!(action, DirectoryAction::Missing(p) if p == PathBuf::from("/f")));
}
