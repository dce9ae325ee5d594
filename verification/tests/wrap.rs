use matrix::features::logs::{process_logs, LogColor};
use matrix::socket::{frame_response, unframe_response};

fn lines(v: &[&str]) -> Vec<String> {
    v.iter().map(|s| s.to_string()).collect()
}

#[test]
fn words_wrap_greedily() {
    let raw = lines(&["hello world foo"]);
    let (rows, map) = process_logs(&raw, 11);
    let texts: Vec<&str> = rows.iter().map(|r| r.content.as_str()).collect();
    assert_eq!(texts, vec!["hello ", "world foo"]);
    assert_eq!(map, vec![0, 0]);
}

#[test]
fn long_words_are_cut_and_urls_follow_offsets() {
    let raw = lines(&["see http://x.io now"]);
    let (rows, map) = process_logs(&raw, 8);
    let texts: Vec<&str> = rows.iter().map(|r| r.content.as_str()).collect();
    assert_eq!(texts, vec!["see ", "http://x", ".io now"]);
    assert_eq!(map, vec![0, 0, 0]);
    assert!(rows[0].urls.is_empty());
    assert!(rows[1].urls.is_empty());
    assert_eq!(rows[2].urls.len(), 1);
    assert_eq!((rows[2].urls[0].start, rows[2].urls[0].end), (0, 3));
}

#[test]
fn empty_and_escaped_lines() {
    let raw = lines(&["", "\x1b[31merror here\x1b[0m"]);
    let (rows, map) = process_logs(&raw, 80);
    assert_eq!(rows.len(), 2);
    assert_eq!(rows[0].content, "");
    assert_eq!(rows[0].color, LogColor::White);
    assert_eq!(rows[1].content, "error here");
    assert_eq!(rows[1].color, LogColor::Red);
    assert_eq!(map, vec![0, 1]);
}

#[test]
fn long_words_are_cut_at_character_boundaries() {
    let texts = |raw: &[&str], width: usize| -> Vec<String> {
        process_logs(&lines(raw), width).0.into_iter().map(|r| r.content).collect()
    };
    assert_eq!(texts(&["ééé"], 3), vec!["é", "é", "é"]);
    assert_eq!(texts(&["aéé b"], 4), vec!["aé", "é b"]);
    assert_eq!(texts(&["日本"], 2), vec!["日", "本"]);
    assert_eq!(texts(&["abc"], 0), vec!["a", "b", "c"]);
    assert_eq!(texts(&[""], 0), vec![""]);
}

#[test]
fn client_reads_back_what_the_server_framed() {
    assert_eq!(unframe_response(&frame_response("OK: started web")), "OK: started web");
    assert_eq!(unframe_response(&frame_response("OK:\na\nb  ")), "OK:\na\nb");
    assert_eq!(unframe_response("partial"), "partial");
}
