use mget::cli::{parse_args, resolve, CliError, CliRequest};
use mget::config::Config;

fn words(list: &[&str]) -> Vec<String> {
    list.iter().map(|w| w.to_string()).collect()
}

fn request() -> CliRequest {
    CliRequest {
        url: String::new(),
        concurrency: 3,
        output_path: None,
        proxy: None,
        cookie_file: None,
        resume_file: None,
    }
}

#[test]
fn empty_command_line() {
    assert_eq!(parse_args(&words(&[])), Ok(request()));
}

#[test]
fn resource_alone() {
    let expected = CliRequest { url: "http://example.com/f".to_string(), ..request() };
    assert_eq!(parse_args(&words(&["http://example.com/f"])), Ok(expected));
}

#[test]
fn every_flag_in_its_long_form() {
    let args = words(&[
        "--thread", "8", "--output", "f.bin", "--proxy", "http://p:1", "--cookie", "jar.txt", "--continue",
        "f.bin.mget", "http://example.com/f",
    ]);
    let expected = CliRequest {
        url: "http://example.com/f".to_string(),
        concurrency: 8,
        output_path: Some("f.bin".to_string()),
        proxy: Some("http://p:1".to_string()),
        cookie_file: Some("jar.txt".to_string()),
        resume_file: Some("f.bin.mget".to_string()),
    };
    assert_eq!(parse_args(&args), Ok(expected));
}

#[test]
fn every_flag_in_its_short_form() {
    let args = words(&["u", "-t", "1", "-o", "o", "-p", "p", "-coo", "j", "-c", "r"]);
    let expected = CliRequest {
        url: "u".to_string(),
        concurrency: 1,
        output_path: Some("o".to_string()),
        proxy: Some("p".to_string()),
        cookie_file: Some("j".to_string()),
        resume_file: Some("r".to_string()),
    };
    assert_eq!(parse_args(&args), Ok(expected));
}

#[test]
fn cookies_flag_has_a_second_long_form() {
    let expected = CliRequest { cookie_file: Some("j".to_string()), ..request() };
    assert_eq!(parse_args(&words(&["--cookies", "j"])), Ok(expected));
}

#[test]
fn later_word_counts() {
    let args = words(&["a", "-t", "2", "b", "-t", "5", "-o", "x", "-o", "y"]);
    let expected = CliRequest {
        url: "b".to_string(),
        concurrency: 5,
        output_path: Some("y".to_string()),
        ..request()
    };
    assert_eq!(parse_args(&args), Ok(expected));
}

#[test]
fn flag_takes_the_next_word_whatever_it_is() {
    let args = words(&["-o", "-t", "4"]);
    let expected = CliRequest { url: "4".to_string(), output_path: Some("-t".to_string()), ..request() };
    assert_eq!(parse_args(&args), Ok(expected));
}

#[test]
fn unknown_flag_is_taken_for_the_resource() {
    let expected = CliRequest { url: "--threads".to_string(), ..request() };
    assert_eq!(parse_args(&words(&["--threads"])), Ok(expected));
}

#[test]
fn flag_without_value_is_refused() {
    assert_eq!(parse_args(&words(&["u", "-o"])), Err(CliError::MissingValue));
    assert_eq!(parse_args(&words(&["--thread"])), Err(CliError::MissingValue));
    assert_eq!(parse_args(&words(&["-t", "x", "-o"])), Err(CliError::InvalidConcurrency));
}

#[test]
fn concurrency_that_is_no_number_is_refused() {
    assert_eq!(parse_args(&words(&["-t", "four"])), Err(CliError::InvalidConcurrency));
    assert_eq!(parse_args(&words(&["-t", "-1"])), Err(CliError::InvalidConcurrency));
    assert_eq!(parse_args(&words(&["-t", ""])), Err(CliError::InvalidConcurrency));
    assert_eq!(parse_args(&words(&["-t", "18446744073709551616"])), Err(CliError::InvalidConcurrency));
    assert_eq!(parse_args(&words(&["-t", "0"])), Ok(CliRequest { concurrency: 0, ..request() }));
}

#[test]
fn fresh_run_takes_everything_from_the_command_line() {
    let r = CliRequest {
        url: "u".to_string(),
        concurrency: 5,
        output_path: Some("o".to_string()),
        proxy: Some("p".to_string()),
        cookie_file: Some("j".to_string()),
        resume_file: None,
    };
    let config = resolve(&r, Some("a=b".to_string()), None);
    assert_eq!(
        config,
        Config {
            concurrency: 5,
            url: "u".to_string(),
            output_path: Some("o".to_string()),
            proxy: Some("p".to_string()),
            cookie_header: Some("a=b".to_string()),
            resume_cursors: None,
        }
    );
}

fn record() -> Config {
    Config {
        concurrency: 4,
        url: "http://old/f".to_string(),
        output_path: Some("old.bin".to_string()),
        proxy: Some("http://oldproxy".to_string()),
        cookie_header: Some("old=1".to_string()),
        resume_cursors: Some(vec![-1, 300, 500, -1]),
    }
}

#[test]
fn continued_run_keeps_the_record_where_the_command_line_is_silent() {
    let config = resolve(&request(), None, Some(&record()));
    assert_eq!(config, record());
}

#[test]
fn command_line_replaces_resource_proxy_and_cookies_of_the_record() {
    let r = CliRequest {
        url: "http://new/f".to_string(),
        concurrency: 9,
        output_path: Some("new.bin".to_string()),
        proxy: Some("http://newproxy".to_string()),
        cookie_file: Some("jar".to_string()),
        resume_file: Some("old.bin.mget".to_string()),
    };
    let config = resolve(&r, Some("new=2".to_string()), Some(&record()));
    assert_eq!(
        config,
        Config {
            concurrency: 4,
            url: "http://new/f".to_string(),
            output_path: Some("old.bin".to_string()),
            proxy: Some("http://newproxy".to_string()),
            cookie_header: Some("new=2".to_string()),
            resume_cursors: Some(vec![-1, 300, 500, -1]),
        }
    );
}

#[test]
fn command_line_replaces_one_thing_at_a_time() {
    let r = CliRequest { proxy: Some("p".to_string()), ..request() };
    let config = resolve(&r, None, Some(&record()));
    assert_eq!(config, Config { proxy: Some("p".to_string()), ..record() });
    let config = resolve(&request(), Some(String::new()), Some(&record()));
    assert_eq!(config, Config { cookie_header: Some(String::new()), ..record() });
}
