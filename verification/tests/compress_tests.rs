use std::path::PathBuf;
use tinypngx::cache::{cache_key, ResponseCache, CACHE_LIFE, CACHE_LIMIT};
use tinypngx::client::{score_rank, TinifyClient, NANOS_PER_SEC};
use tinypngx::clock::LocalTime;
use tinypngx::compress::{
    http_text_of, refuses_key, Action, Compression, Event, Failure, Output, Reply, Step,
};
use tinypngx::image::ImageResult;
use tinypngx::state::ApiState;
use tinypngx::task::{Task, TaskAction, TaskEvent, TaskFailure, TaskStep};

fn client(keys: &[(&str, u32)]) -> TinifyClient {
    let names: Vec<String> = keys.iter().map(|(k, _)| k.to_string()).collect();
    let mut state = ApiState::new_at(LocalTime { year: 2025, month: 1, rfc3339: String::new() });
    state.update_keys(&names);
    for (key, credits) in keys {
        state.update_key_credit(key, *credits);
    }
    TinifyClient::new(names, state, 0)
}

fn credit(client: &TinifyClient, key: &str) -> Option<u32> {
    client.state.key_statuses.get(key).copied()
}

fn successes(client: &TinifyClient, key: &str) -> Option<u32> {
    client.key_stats.get(key).map(|s| s.successes)
}

fn begin(data: &[u8], client: &TinifyClient, cache: &mut ResponseCache, now: u64) -> (Compression, Action) {
    Compression::begin(PathBuf::from("i.png"), data.to_vec(), data.len() as u64, client, cache, now)
}

fn go_on(step: Step) -> (Compression, Action) {
    match step {
        Step::Do(c, a) => (c, a),
        _ => panic!("over"),
    }
}

fn done(step: Step) -> ImageResult {
    match step {
        Step::Done(r) => r,
        _ => panic!("not done"),
    }
}

fn reply(status: u16, count: Option<&str>) -> Event {
    Event::Replied(Reply { status, compression_count: count.map(|s| s.as_bytes().to_vec()) })
}

fn output() -> Output {
    Output { size: 40, url: "https://x/y".to_string(), saved_percent: "60.0".to_string() }
}

fn take(
    c: Compression,
    event: Event,
    client: &mut TinifyClient,
    cache: &mut ResponseCache,
    now: u64,
) -> Step {
    assert!(c.admits(&event, client));
    c.step(event, client, cache, now)
}

fn sending(client: &mut TinifyClient, cache: &mut ResponseCache) -> (Compression, String) {
    let (c, action) = begin(b"image", client, cache, 5);
    let ranks = match action {
        Action::Rank(standings) => standings.iter().map(|s| s.credits as i64).collect(),
        _ => panic!("not ranked"),
    };
    let (c, action) = go_on(take(c, Event::Ranked(ranks), client, cache, 5));
    match action {
        Action::Post { key, body } => {
            assert_eq!(body, b"image".to_vec());
            (c, key)
        }
        _ => panic!("not sent"),
    }
}

#[test]
fn key_of_data_is_its_digest() {
    assert_eq!(cache_key(b"abcdefghijklmnopqrstuvwxyz"), "c3fcd3d76192e4007dfb496cca67e13b");
    assert_eq!(cache_key(b""), "d41d8cd98f00b204e9800998ecf8427e");
    assert_eq!(cache_key(b"a"), format!("{:x}", md5::compute(b"a")));
}

#[test]
fn kept_data_is_young_for_an_hour() {
    let mut cache = ResponseCache::new();
    let key = "k".to_string();
    assert_eq!(cache.lookup(&key, 0), None);
    cache.store(key.clone(), vec![1, 2], 10);
    assert_eq!(cache.lookup(&key, 10), Some(vec![1, 2]));
    assert_eq!(cache.lookup(&key, 3), Some(vec![1, 2]));
    assert_eq!(cache.lookup(&key, 10 + CACHE_LIFE - 1), Some(vec![1, 2]));
    assert_eq!(cache.lookup(&key, 10 + CACHE_LIFE), None);
    cache.store(key.clone(), vec![3], 10 + CACHE_LIFE);
    assert_eq!(cache.lookup(&key, 10 + CACHE_LIFE), Some(vec![3]));
}

#[test]
fn full_cache_drops_what_was_used_longest_ago() {
    let mut cache = ResponseCache::new();
    for i in 0..CACHE_LIMIT {
        cache.store(i.to_string(), vec![i as u8], 0);
    }
    assert_eq!(cache.lookup(&"0".to_string(), 0), Some(vec![0]));
    cache.store("new".to_string(), vec![7], 0);
    assert_eq!(cache.lookup(&"1".to_string(), 0), None);
    assert_eq!(cache.lookup(&"0".to_string(), 0), Some(vec![0]));
    assert_eq!(cache.lookup(&"2".to_string(), 0), Some(vec![2]));
    cache.store("3".to_string(), vec![8], 0);
    assert_eq!(cache.lookup(&"4".to_string(), 0), Some(vec![4]));
    assert_eq!(cache.lookup(&"3".to_string(), 0), Some(vec![8]));
}

#[test]
fn entry_survives_fewer_other_keys_than_the_limit() {
    let key = "k".to_string();
    let mut cache = ResponseCache::new();
    cache.store(key.clone(), vec![1], 0);
    for i in 1..CACHE_LIMIT {
        assert_eq!(cache.lookup(&format!("missing {}", i), 0), None);
        cache.store(i.to_string(), vec![], 0);
        cache.store(i.to_string(), vec![2], 0);
    }
    assert_eq!(cache.lookup(&key, CACHE_LIFE - 1), Some(vec![1]));

    for i in 1..CACHE_LIMIT {
        assert_eq!(cache.lookup(&i.to_string(), 0), Some(vec![2]));
    }
    cache.store("one more".to_string(), vec![3], 0);
    assert_eq!(cache.lookup(&key, 0), None);
}

#[test]
fn available_keys_and_their_standing() {
    let mut c = client(&[("a", 0), ("b", 5), ("c", 9)]);
    c.update_key_stats("b", true, 2 * NANOS_PER_SEC);
    c.update_key_stats("b", true, 3 * NANOS_PER_SEC);
    c.update_key_stats("c", false, NANOS_PER_SEC);
    let keys = c.available_keys();
    assert_eq!(keys, vec!["b", "c"]);
    let s = c.standings(&keys, 5 * NANOS_PER_SEC - 1);
    assert_eq!((s[0].credits, s[0].successes, s[0].idle_secs), (5, 2, 1));
    assert_eq!((s[1].credits, s[1].successes, s[1].idle_secs), (9, 0, 3));
    let unknown = c.standings(&vec!["z".to_string()], 100 * NANOS_PER_SEC);
    assert_eq!((unknown[0].credits, unknown[0].successes, unknown[0].idle_secs), (0, 0, 0));
    let early = c.standings(&keys, 0);
    assert_eq!(early[0].idle_secs, 0);
    assert_eq!(c.get_active_key_count(), 2);
}

#[test]
fn best_key_is_the_first_of_the_highest() {
    let c = client(&[("a", 1), ("b", 5), ("c", 9), ("d", 9)]);
    let keys = c.available_keys();
    assert_eq!(c.select_best_key(&keys, &vec![3, 7, 7, -1]), "b");
    assert_eq!(c.select_best_key(&keys, &vec![i64::MIN; 4]), "a");
    assert_eq!(c.select_best_key(&keys, &vec![-5, -4, -3, -2]), "d");
    assert_eq!(c.select_best_key(&vec![], &vec![]), "a");
    assert_eq!(client(&[]).select_best_key(&vec![], &vec![]), "");
}

#[test]
fn ranks_are_ordered_as_the_scores() {
    let scores = [f64::MIN, -2.6e15, -1.5, -1.0, -1e-300, 0.0, 1e-300, 0.5, 0.7, 1.0, 2.6e15];
    for a in scores {
        for b in scores {
            assert_eq!(a > b, score_rank(a.to_bits()) > score_rank(b.to_bits()), "{} {}", a, b);
        }
    }
    assert_eq!(score_rank(0), 0);
    assert_eq!(score_rank(0x8000_0000_0000_0000), -1);
    assert_eq!(score_rank(u64::MAX), i64::MIN);
}

#[test]
fn data_with_other_digests_has_other_keys() {
    assert_ne!(cache_key(b"a"), cache_key(b"b"));
    assert_eq!(cache_key(b"a").len(), 32);
}

#[test]
fn use_of_keys_is_counted() {
    let mut c = client(&[("a", 1)]);
    assert!(c.can_count_success("a"));
    assert!(c.can_count_success("unknown"));
    c.update_key_stats("a", true, 4);
    c.update_key_stats("a", false, 6);
    c.update_key_stats("n", true, 7);
    assert_eq!(successes(&c, "a"), Some(1));
    assert_eq!(c.key_stats.get("a").unwrap().last_used, 6);
    assert_eq!(successes(&c, "n"), Some(1));
    c.mark_key_invalid("a");
    assert_eq!(credit(&c, "a"), Some(0));
    c.update_key_credit("a", 4);
    assert_eq!(credit(&c, "a"), Some(4));
}

#[test]
fn compression_that_succeeds_and_is_kept() {
    let mut client = client(&[("a", 3), ("b", 5)]);
    let mut cache = ResponseCache::new();
    let (c, key) = sending(&mut client, &mut cache);
    assert_eq!(key, "b");
    let (c, action) = go_on(take(c, reply(201, Some("120")), &mut client, &mut cache, 6));
    assert!(matches!(action, Action::Decode));
    assert_eq!(credit(&client, "b"), Some(380));
    let (c, action) = go_on(take(c, Event::Decoded(output()), &mut client, &mut cache, 7));
    assert!(matches!(action, Action::Download(url) if url == "https://x/y"));
    let (c, action) = go_on(take(c, Event::Downloaded(vec![9, 9]), &mut client, &mut cache, 8));
    assert!(matches!(action, Action::Write(data) if data == vec![9, 9]));
    let r = done(take(c, Event::Written, &mut client, &mut cache, 9));
    assert!(r.ok);
    assert_eq!(r.path, PathBuf::from("i.png"));
    assert_eq!(r.msg, "压缩成功: 5 → 40 (节省 60.0%)，剩余额度: 380");
    assert_eq!((r.original_size, r.compressed_size), (5, 40));
    assert_eq!(successes(&client, "b"), Some(1));
    assert_eq!(successes(&client, "a"), Some(0));

    let (c, action) = begin(b"image", &client, &mut cache, 8 + CACHE_LIFE - 1);
    assert!(matches!(action, Action::Write(data) if data == vec![9, 9]));
    let r = done(take(c, Event::Written, &mut client, &mut cache, 10));
    assert!(r.ok);
    assert_eq!(r.msg, "压缩成功 (来自缓存)");
    assert_eq!((r.original_size, r.compressed_size), (5, 2));
    assert_eq!(successes(&client, "b"), Some(1));
    let (_, action) = begin(b"image", &client, &mut cache, 8 + CACHE_LIFE);
    assert!(matches!(action, Action::Rank(_)));
}

#[test]
fn kept_image_is_written_without_another_request() {
    let mut first = client(&[("a", 500)]);
    let mut cache = ResponseCache::new();
    let (c, _) = sending(&mut first, &mut cache);
    let (c, _) = go_on(take(c, reply(201, Some("12")), &mut first, &mut cache, 6));
    let (c, _) = go_on(take(c, Event::Decoded(output()), &mut first, &mut cache, 7));
    let (c, action) = go_on(take(c, Event::Downloaded(vec![9, 8, 7]), &mut first, &mut cache, 8));
    assert!(matches!(action, Action::Write(data) if data == vec![9, 8, 7]));
    assert!(done(take(c, Event::Written, &mut first, &mut cache, 9)).ok);

    for i in 1..CACHE_LIMIT {
        cache.store(i.to_string(), vec![], 10);
    }
    let mut second = client(&[("b", 3)]);
    let (c, action) = begin(b"image", &second, &mut cache, 8 + CACHE_LIFE - 1);
    assert!(matches!(action, Action::Write(data) if data == vec![9, 8, 7]));
    let r = done(take(c, Event::Written, &mut second, &mut cache, 11));
    assert!(r.ok);
    assert_eq!(r.path, PathBuf::from("i.png"));
    assert_eq!((r.original_size, r.compressed_size), (5, 3));
    assert_eq!(credit(&second, "b"), Some(3));
    assert_eq!(successes(&second, "b"), Some(0));
}

#[test]
fn listed_keys_stay_whatever_the_service_replies() {
    let mut client = client(&[("a", 5), ("b", 4), ("c", 3)]);
    let mut cache = ResponseCache::new();
    let mut saved = client.state.clone();
    for status in [429, 401, 500, 201] {
        let (c, key) = sending(&mut client, &mut cache);
        assert!(client.keys.contains(&key));
        take(c, reply(status, Some("1")), &mut client, &mut cache, 6);
    }
    assert_eq!((credit(&client, "a"), credit(&client, "b")), (Some(0), Some(0)));
    assert_eq!(credit(&client, "c"), Some(499));
    saved.learn(&client);
    assert_eq!(saved.key_statuses.len(), 3);
    for key in &client.keys {
        assert_eq!(saved.key_statuses.get(key), client.state.key_statuses.get(key));
    }
}

#[test]
fn replies_that_refuse_a_key() {
    assert!(refuses_key(429));
    assert!(refuses_key(401));
    assert!(!refuses_key(201));
    assert!(!refuses_key(400));
    assert!(!refuses_key(500));
}

#[test]
fn text_of_an_unexpected_reply() {
    assert_eq!(http_text_of("415 Unsupported Media Type", "no"), "HTTP 415 Unsupported Media Type: no");
    assert_eq!(http_text_of("", ""), "HTTP : ");
}

#[test]
fn credits_after_a_reply() {
    for (count, left) in [
        (Some("0"), 500), (Some("499"), 1), (Some("500"), 0), (Some("900"), 0), (Some("x"), 500),
        (Some("-1"), 500), (None, 500),
    ] {
        let mut client = client(&[("a", 3)]);
        let mut cache = ResponseCache::new();
        let (c, _) = sending(&mut client, &mut cache);
        go_on(take(c, reply(200, count), &mut client, &mut cache, 6));
        assert_eq!(credit(&client, "a"), Some(left));
    }
}

#[test]
fn exhausted_and_invalid_keys_are_taken_out() {
    for (status, msg) in [
        (429, "额度耗尽，已移除该 key，剩余可用 key: 1"),
        (401, "密钥无效，已移除该 key，剩余可用 key: 1"),
    ] {
        let mut client = client(&[("a", 3), ("b", 5)]);
        let mut cache = ResponseCache::new();
        let (c, key) = sending(&mut client, &mut cache);
        let r = done(take(c, reply(status, None), &mut client, &mut cache, 6));
        assert!(!r.ok);
        assert_eq!(r.msg, msg);
        assert_eq!((r.original_size, r.compressed_size), (5, 0));
        assert_eq!(credit(&client, &key), Some(0));
        assert_eq!(credit(&client, "a"), Some(3));
        assert_eq!(successes(&client, &key), Some(0));
    }
}

#[test]
fn other_replies_are_explained() {
    let mut client = client(&[("a", 3)]);
    let mut cache = ResponseCache::new();
    let (c, _) = sending(&mut client, &mut cache);
    let (c, action) = go_on(take(c, reply(404, Some("3")), &mut client, &mut cache, 6));
    assert!(matches!(action, Action::ReadBody));
    assert_eq!(credit(&client, "a"), Some(3));
    let r = done(take(c, Event::Body("gone".to_string()), &mut client, &mut cache, 70));
    assert!(!r.ok);
    assert_eq!(r.msg, "HTTP 404 Not Found: gone");
    assert_eq!(client.key_stats.get("a").unwrap().last_used, 70);

    let (c, _) = sending(&mut client, &mut cache);
    let (c, _) = go_on(take(c, reply(799, None), &mut client, &mut cache, 6));
    let r = done(take(c, Event::Failed, &mut client, &mut cache, 7));
    assert_eq!(r.msg, "HTTP 799 <unknown status code>: ");
}

#[test]
fn unreachable_service() {
    let mut client = client(&[("a", 3)]);
    let mut cache = ResponseCache::new();
    let (c, _) = sending(&mut client, &mut cache);
    let r = done(take(c, Event::Unreachable("timeout".to_string()), &mut client, &mut cache, 9));
    assert!(!r.ok);
    assert_eq!(r.msg, "网络错误: timeout");
    assert_eq!(successes(&client, "a"), Some(0));
    assert_eq!(client.key_stats.get("a").unwrap().last_used, 9);
}

#[test]
fn no_key_with_credits_takes_the_first() {
    let mut client = client(&[("a", 0), ("b", 0)]);
    let mut cache = ResponseCache::new();
    let (c, action) = begin(b"image", &client, &mut cache, 5);
    assert!(matches!(action, Action::Post { key, body } if key == "a" && body == b"image".to_vec()));
    assert!(!c.admits(&reply(429, None), &client));
    assert!(!c.admits(&reply(99, None), &client));
    assert!(!c.admits(&Event::Written, &client));
    assert!(c.admits(&reply(200, None), &client));
    go_on(take(c, reply(200, None), &mut client, &mut cache, 6));
    assert_eq!(credit(&client, "a"), Some(500));
}

fn failure(step: Step) -> Failure {
    match step {
        Step::Failed(f) => f,
        _ => panic!("no failure"),
    }
}

#[test]
fn failures_of_each_action() {
    let mut client = client(&[("a", 3)]);
    let mut cache = ResponseCache::new();
    let (c, _) = sending(&mut client, &mut cache);
    let (c, _) = go_on(take(c, reply(200, None), &mut client, &mut cache, 6));
    assert_eq!(failure(take(c, Event::Failed, &mut client, &mut cache, 7)), Failure::Decode);

    for (event, expected) in
        [(Event::Failed, Failure::Download), (Event::Interrupted, Failure::Fetch)]
    {
        let (c, _) = sending(&mut client, &mut cache);
        let (c, _) = go_on(take(c, reply(200, None), &mut client, &mut cache, 6));
        let (c, _) = go_on(take(c, Event::Decoded(output()), &mut client, &mut cache, 7));
        assert_eq!(failure(take(c, event, &mut client, &mut cache, 7)), expected);
    }

    let (c, _) = sending(&mut client, &mut cache);
    let (c, _) = go_on(take(c, reply(200, None), &mut client, &mut cache, 6));
    let (c, _) = go_on(take(c, Event::Decoded(output()), &mut client, &mut cache, 7));
    let (c, _) = go_on(take(c, Event::Downloaded(vec![1]), &mut client, &mut cache, 8));
    assert_eq!(failure(take(c, Event::Failed, &mut client, &mut cache, 9)), Failure::Write);
    assert_eq!(successes(&client, "a"), Some(0));

    let (c, action) = begin(b"image", &client, &mut cache, 10);
    assert!(matches!(action, Action::Write(_)));
    assert_eq!(failure(take(c, Event::Failed, &mut client, &mut cache, 11)), Failure::Write);
    assert_eq!(Failure::Write.context(), "写入文件失败");
    assert_eq!(Failure::Decode.context(), "解析Tinify响应失败");
    assert_eq!(Failure::Download.context(), "下载压缩图片失败");
    assert_eq!(Failure::Fetch.context(), "获取压缩图片数据失败");
}

fn work(step: TaskStep) -> (Task, TaskAction) {
    match step {
        TaskStep::Do(t, a) => (t, a),
        _ => panic!("over"),
    }
}

#[test]
fn failed_image_is_restored_from_its_backup() {
    let mut client = client(&[("a", 0)]);
    let mut cache = ResponseCache::new();
    let path = PathBuf::from("i.png");
    let step = Task::start(path, Some(b"image".to_vec()), true, &client, &mut cache, 1);
    let (task, action) = work(step);
    assert!(matches!(action, TaskAction::ReadFile));
    assert!(!task.admits(&TaskEvent::Restored, &client));
    let step = task.step(TaskEvent::FileRead(vec![4, 2]), &mut client, &mut cache, 2);
    let (task, action) = work(step);
    assert!(matches!(action, TaskAction::Compress(Action::Post { body, .. }) if body == b"image".to_vec()));
    let event = TaskEvent::Compress(Event::Unreachable("e".to_string()));
    assert!(task.admits(&event, &client));
    let (task, action) = work(task.step(event, &mut client, &mut cache, 3));
    assert!(matches!(action, TaskAction::Restore(data) if data == vec![4, 2]));
    match task.step(TaskEvent::Restored, &mut client, &mut cache, 4) {
        TaskStep::Done(r) => {
            assert!(!r.ok);
            assert_eq!(r.original_size, 5);
            assert_eq!(r.msg, "网络错误: e");
        }
        _ => panic!("not done"),
    }
}

#[test]
fn image_is_restored_after_an_error_as_well() {
    let mut first = client(&[("a", 0)]);
    let mut cache = ResponseCache::new();
    let decoding = |client: &mut TinifyClient, cache: &mut ResponseCache| {
        let image = Some(b"image".to_vec());
        let (task, _) = work(Task::start(PathBuf::from("i"), image, true, client, cache, 1));
        let (task, _) = work(task.step(TaskEvent::FileRead(vec![4, 2]), client, cache, 2));
        let event = TaskEvent::Compress(reply(200, None));
        let (task, _) = work(task.step(event, client, cache, 3));
        work(task.step(TaskEvent::Compress(Event::Failed), client, cache, 4))
    };
    let (task, action) = decoding(&mut first, &mut cache);
    assert!(matches!(action, TaskAction::Restore(data) if data == vec![4, 2]));
    assert!(task.admits(&TaskEvent::Restored, &first));
    assert!(task.admits(&TaskEvent::Failed, &first));
    assert!(!task.admits(&TaskEvent::Compress(Event::Failed), &first));
    let step = task.step(TaskEvent::Restored, &mut first, &mut cache, 5);
    assert_eq!(task_failure(step), TaskFailure::Compress(Failure::Decode));

    let mut second = client(&[("a", 0)]);
    let (task, _) = decoding(&mut second, &mut cache);
    let step = task.step(TaskEvent::Failed, &mut second, &mut cache, 5);
    assert_eq!(task_failure(step), TaskFailure::Restore);
}

#[test]
fn failed_image_without_a_backup_is_left() {
    let mut client = client(&[("a", 0)]);
    let mut cache = ResponseCache::new();
    let path = PathBuf::from("i.png");
    let step = Task::start(path, Some(b"image".to_vec()), false, &client, &mut cache, 1);
    let (task, _) = work(step);
    let event = TaskEvent::Compress(Event::Unreachable("e".to_string()));
    match task.step(event, &mut client, &mut cache, 3) {
        TaskStep::Done(r) => assert!(!r.ok),
        _ => panic!("not done"),
    }
}

#[test]
fn image_that_was_not_loaded() {
    let mut client = client(&[("a", 0)]);
    let mut cache = ResponseCache::new();
    let start = |cache: &mut ResponseCache, client: &TinifyClient| {
        work(Task::start(PathBuf::from("i.png"), None, true, client, cache, 1))
    };
    let (task, action) = start(&mut cache, &client);
    assert!(matches!(action, TaskAction::Probe));
    match task.step(TaskEvent::Probed(false), &mut client, &mut cache, 2) {
        TaskStep::Done(r) => {
            assert!(!r.ok);
            assert_eq!(r.msg, "文件不存在");
            assert_eq!((r.original_size, r.compressed_size), (0, 0));
        }
        _ => panic!("not done"),
    }
    let (task, _) = start(&mut cache, &client);
    let (task, action) = work(task.step(TaskEvent::Probed(true), &mut client, &mut cache, 2));
    assert!(matches!(action, TaskAction::ReadFile));
    let (task, action) =
        work(task.step(TaskEvent::FileRead(vec![1, 2, 3]), &mut client, &mut cache, 2));
    assert!(matches!(action, TaskAction::Compress(Action::Post { body, .. }) if body == vec![1, 2, 3]));
    let event = TaskEvent::Compress(Event::Unreachable("e".to_string()));
    match task.step(event, &mut client, &mut cache, 3) {
        TaskStep::Done(r) => assert_eq!(r.original_size, 3),
        _ => panic!("not done"),
    }
}

fn task_failure(step: TaskStep) -> TaskFailure {
    match step {
        TaskStep::Failed(f) => f,
        _ => panic!("no failure"),
    }
}

#[test]
fn failures_of_the_work_on_a_file() {
    let mut client = client(&[("a", 0)]);
    let mut cache = ResponseCache::new();
    let image = Some(b"image".to_vec());
    let (task, _) =
        work(Task::start(PathBuf::from("i"), image.clone(), true, &client, &mut cache, 1));
    let step = task.step(TaskEvent::Failed, &mut client, &mut cache, 2);
    assert_eq!(task_failure(step), TaskFailure::Backup);

    let (task, _) = work(Task::start(PathBuf::from("i"), None, true, &client, &mut cache, 1));
    let (task, _) = work(task.step(TaskEvent::Probed(true), &mut client, &mut cache, 2));
    let step = task.step(TaskEvent::Failed, &mut client, &mut cache, 2);
    assert_eq!(task_failure(step), TaskFailure::Read);

    let (task, _) =
        work(Task::start(PathBuf::from("i"), image.clone(), true, &client, &mut cache, 1));
    let (task, _) = work(task.step(TaskEvent::FileRead(vec![]), &mut client, &mut cache, 2));
    let event = TaskEvent::Compress(Event::Unreachable("e".to_string()));
    let (task, _) = work(task.step(event, &mut client, &mut cache, 3));
    let step = task.step(TaskEvent::Failed, &mut client, &mut cache, 4);
    assert_eq!(task_failure(step), TaskFailure::Restore);

    let (task, _) = work(Task::start(PathBuf::from("i"), image, false, &client, &mut cache, 1));
    let (task, _) =
        work(task.step(TaskEvent::Compress(reply(200, None)), &mut client, &mut cache, 2));
    let step = task.step(TaskEvent::Compress(Event::Failed), &mut client, &mut cache, 3);
    assert_eq!(task_failure(step), TaskFailure::Compress(Failure::Decode));
}
