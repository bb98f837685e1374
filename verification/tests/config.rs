use cpr::data::{should_skip, Config, ConfigError, NotionTextChunk};
use cpr::mtime::{get_date, get_datetime, get_time};
use cpr::score::{Optimize, ResultFunc};
use cpr::test_log::TestLog;

fn base_config() -> Config {
    Config {
        tests: 4,
        optimize: String::from("max"),
        result_func: String::from("sum"),
        skip_tests: None,
        run_tests: None,
        precision: None,
        threads: None,
        time_offset: None,
        main: None,
        scorer: None,
        finalize: None,
        notion: None,
        remote: None,
    }
}

#[test]
fn normalize_fills_every_default() {
    let c = base_config().normalize().unwrap();
    assert_eq!(c.tests, 4);
    assert_eq!(c.skip_tests, Some(vec![]));
    assert_eq!(c.run_tests, Some(vec![]));
    assert_eq!(c.precision, Some(3));
    assert_eq!(c.threads, Some(1));
    assert_eq!(c.time_offset, Some(10800));
    assert_eq!(c.main, Some(vec![String::from("./main")]));
    assert_eq!(c.scorer, Some(vec![String::from("./scorer")]));
    assert_eq!(c.finalize, Some(vec![String::from("./finalize")]));
}

#[test]
fn normalize_keeps_given_values() {
    let mut c = base_config();
    c.skip_tests = Some(vec![2, 3]);
    c.threads = Some(8);
    c.main = Some(vec![String::from("python3"), String::from("main.py")]);
    let c = c.normalize().unwrap();
    assert_eq!(c.skip_tests, Some(vec![2, 3]));
    assert_eq!(c.threads, Some(8));
    assert_eq!(c.main, Some(vec![String::from("python3"), String::from("main.py")]));
}

#[test]
fn normalize_keeps_notion_and_remote() {
    let mut c = base_config();
    c.notion = Some(cpr::data::NotionConfig {
        key: String::from("k"),
        database: String::from("d"),
    });
    c.remote = Some(cpr::data::RemoteConfig {
        local_port: 9000,
        workdir: String::from("/w"),
        copy: vec![String::from("tests/*")],
        prerun: vec![],
        threads: 4,
        score: true,
    });
    let c = c.normalize().unwrap();
    let n = c.notion.unwrap();
    assert_eq!(n.key, "k");
    assert_eq!(n.database, "d");
    let r = c.remote.unwrap();
    assert_eq!(r.local_port, 9000);
    assert_eq!(r.workdir, "/w");
    assert_eq!(r.copy, vec![String::from("tests/*")]);
    assert_eq!(r.threads, 4);
    assert!(r.score);
}

#[test]
fn normalize_rejects_bad_directions() {
    let mut c = base_config();
    c.optimize = String::from("biggest");
    assert!(matches!(c.normalize(), Err(ConfigError::BadOptimize)));

    let mut c = base_config();
    c.result_func = String::from("median");
    assert!(matches!(c.normalize(), Err(ConfigError::BadResultFunc)));
}

#[test]
fn direction_and_result_mode_read_the_strings() {
    let mut c = base_config();
    assert_eq!(c.direction(), Some(Optimize::Max));
    assert_eq!(c.result_mode(), Some(ResultFunc::Sum));
    c.optimize = String::from("min");
    c.result_func = String::from("avg");
    assert_eq!(c.direction(), Some(Optimize::Min));
    assert_eq!(c.result_mode(), Some(ResultFunc::Avg));
    c.optimize = String::from("x");
    assert_eq!(c.direction(), None);
}

#[test]
fn skip_rules_follow_both_lists() {
    assert!(should_skip(2, &vec![2, 5], &vec![]));
    assert!(!should_skip(3, &vec![2, 5], &vec![]));
    assert!(should_skip(3, &vec![], &vec![1, 2]));
    assert!(!should_skip(1, &vec![], &vec![1, 2]));
    assert!(!should_skip(7, &vec![], &vec![]));
}

#[test]
fn chunks_merge_by_color_and_split_by_length() {
    let parts = vec![
        NotionTextChunk::new("aa", "default"),
        NotionTextChunk::new("bb", "default"),
        NotionTextChunk::new("cc", "red"),
    ];
    let fixed = NotionTextChunk::fix_chunks_length(parts);
    assert_eq!(fixed.len(), 2);
    assert_eq!(fixed[0].text, "aabb");
    assert_eq!(fixed[0].color, "default");
    assert_eq!(fixed[1].text, "cc");
    assert_eq!(fixed[1].color, "red");
}

#[test]
fn long_chunks_are_cut_to_a_thousand_characters() {
    let long = "x".repeat(2500);
    let fixed = NotionTextChunk::fix_chunks_length(vec![NotionTextChunk::new(&long, "default")]);
    assert_eq!(fixed.len(), 3);
    assert_eq!(fixed[0].text.len(), 1000);
    assert_eq!(fixed[1].text.len(), 1000);
    assert_eq!(fixed[2].text.len(), 500);
    let whole: String = fixed.iter().map(|c| c.text.clone()).collect();
    assert_eq!(whole, long);
}

#[test]
fn linked_chunks_never_merge() {
    let mut a = NotionTextChunk::new("see ", "default");
    a.link = Some(String::from("/page"));
    let b = NotionTextChunk::new("here", "default");
    let fixed = NotionTextChunk::fix_chunks_length(vec![a, b]);
    assert_eq!(fixed.len(), 2);
    assert_eq!(fixed[0].link, Some(String::from("/page")));
}

#[test]
fn empty_chunks_vanish() {
    let fixed = NotionTextChunk::fix_chunks_length(vec![NotionTextChunk::new("", "default")]);
    assert!(fixed.is_empty());
}

#[test]
fn test_logs_name_their_files() {
    let log = TestLog::new("001");
    assert_eq!(log.filename, "001.log");
    assert_eq!(log.content, None);
    assert_eq!(log.page_id, "");
}

#[test]
fn clock_strings_render_shifted_readings() {
    assert_eq!(get_time(0, 0), "00:00:00");
    assert_eq!(get_time(3661, 0), "01:01:01");
    assert_eq!(get_time(0, 10800), "03:00:00");
    assert_eq!(get_time(-1, 0), "23:59:59");
    assert_eq!(get_date(0, 0), "1970-01-01");
    assert_eq!(get_datetime(90061, 0), "1970-01-02 01:01:01");
}
