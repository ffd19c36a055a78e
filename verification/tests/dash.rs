use recall::dash::detail::{detail_lines, inspect_head, row_verdict};
use recall::dash::ingest::tidy_debug_opt;
use recall::dash::keys::Key;
use recall::dash::lines::{push_wrapped, Line, Tone};
use recall::dash::panels::{
    ask_rows, candidate_line, count_empties, event_label, event_tone, header_line, admission_lines,
    meta_line, shown_ask, stage_line, stage_tone,
};
use recall::dash::state::{App, Piece};
use recall::dash::window::{Stage, SPARK_WIDTH};
use recall::dash::wrap::break_lines;
use recall::score::Score;

fn score(x: f64) -> Score {
    Score { bits: x.to_bits() }
}

fn shown(pieces: &[Piece]) -> String {
    let mut out = String::new();
    for p in pieces {
        match p {
            Piece::Text(s) => out.push_str(s),
            Piece::Plain(s) => out.push_str(&format!("{}", f64::from_bits(s.bits))),
            Piece::Fixed(s, n) => {
                out.push_str(&format!("{:.*}", *n as usize, f64::from_bits(s.bits)))
            }
        }
    }
    out
}

fn line_text(line: &Line) -> String {
    line.spans.iter().map(|s| shown(&s.pieces)).collect()
}

fn text_of(lines: &[Line]) -> String {
    lines.iter().map(|l| line_text(l) + "\n").collect()
}

fn noop_on_garbage(app: &mut App) -> bool {
    let before = app.total_asks;
    app.ingest("not json at all");
    app.ingest(r#"{"message":"unrelated"}"#);
    app.total_asks == before
}

#[test]
fn ingests_stage_and_admission_lines() {
    let mut app = App::default();
    app.ingest(
        r#"{"message":"ask started","ask_id":"abc-def","brain_id":"brain-1","question":"When is Ana's birthday?"}"#,
    );
    app.ingest(r#"{"message":"retrieved from nexus","ask_id":"abc-def","personal":20,"granted":12}"#);
    app.ingest(r#"{"message":"stage ok","stage":"embed","ms":42,"ask_id":"abc-def"}"#);
    app.ingest(r#"{"message":"stage failed","stage":"admit","ms":900,"ask_id":"abc-def","error":"boom"}"#);
    app.ingest(
        r#"{"message":"admission complete","ask_id":"abc-def","question":"When is Ana's birthday?","candidates":32,"admitted":0,"threshold":0.15,"top_noul":0.04,"ranked":"[{\"statement\":\"Ana born March 14\",\"noul\":0.04,\"origin\":\"personal\",\"admitted\":false}]"}"#,
    );

    assert_eq!(app.stage("embed").unwrap().last(), 42);
    assert_eq!(app.stage("admit").unwrap().fails, 1);
    assert_eq!(app.errors, 1);
    assert_eq!(app.total_asks, 1);
    assert_eq!(app.empty_admits, 1, "admitted=0 is an empty admit");
    assert_eq!(app.asks[0].question, "When is Ana's birthday?");
    assert_eq!(app.asks[0].personal, 20);
    assert_eq!(app.asks[0].granted, 12);
    assert_eq!(app.asks[0].ranked.len(), 1);
    // 42 + 900 accumulated before the ask completed.
    assert_eq!(app.asks[0].total_ms, 942);
    assert!(noop_on_garbage(&mut app));
}

fn full() -> App {
    let mut app = App::default();
    app.ingest(
        r#"{"message":"ask started","ask_id":"abc","brain_id":"brain-1","question":"When is Ana's birthday?","as_of":"Some(2024-03-01T00:00:00Z)"}"#,
    );
    app.ingest(
        r#"{"message":"kind chosen","ask_id":"abc","kind":"atomic_lookup","confidence":0.42,"model_choice":"temporal","fell_back":true,"chitchat":false}"#,
    );
    app.ingest(r#"{"message":"stage ok","stage":"kind","ms":11,"ask_id":"abc"}"#);
    app.ingest(r#"{"message":"embedded","ask_id":"abc","dims":1024}"#);
    app.ingest(r#"{"message":"stage ok","stage":"embed","ms":20,"ask_id":"abc"}"#);
    app.ingest(r#"{"message":"retrieved from nexus","ask_id":"abc","personal":4,"granted":1,"k":64}"#);
    app.ingest(r#"{"message":"retrieve merged","ask_id":"abc","merged":5,"top_rrf":0.031}"#);
    app.ingest(r#"{"message":"stage ok","stage":"retrieve","ms":30,"ask_id":"abc"}"#);
    app.ingest(
        r#"{"message":"admission complete","ask_id":"abc","candidates":5,"admitted":1,"conflicts":1,"threshold":0.55,"calibrated":true,"top_noul":0.9,"ranked":"[{\"id\":\"11111111-1111-1111-1111-111111111111\",\"statement\":\"Ana was born on March 14\",\"text\":\"chunk about Ana\",\"noul\":0.9,\"injection\":0.01,\"contradicts\":0.02,\"relevant\":0.88,\"evidence\":0.9,\"rrf\":0.016,\"origin\":\"personal\",\"source\":\"notes\",\"grantor\":null,\"route\":\"include\",\"admitted\":true}]"}"#,
    );
    app.ingest(r#"{"message":"stage ok","stage":"admit","ms":40,"ask_id":"abc"}"#);
    app.ingest(
        r#"{"message":"generated","ask_id":"abc","chitchat":false,"citations":1,"answer":"Ana was born on \"March 14\" [memory_0]."}"#,
    );
    app.ingest(r#"{"message":"stage ok","stage":"generate","ms":50,"ask_id":"abc"}"#);
    app.ingest(
        r#"{"message":"verify verdicts","ask_id":"abc","claims":1,"supported":1,"all_ok":true,"attempt":1,"verdicts":"[{\"claim\":\"Ana was born on \\\"March 14\\\" [memory_0].\",\"verdict\":\"supports\",\"memory_index\":0}]"}"#,
    );
    app.ingest(r#"{"message":"stage ok","stage":"verify","ms":15,"ask_id":"abc"}"#);
    app.ingest(
        r#"{"message":"answer published","ask_id":"abc","chitchat":false,"empty":false,"answer":"Ana was born on \"March 14\" [memory_0]."}"#,
    );
    app
}

#[test]
fn inspect_lists_each_stage_choice() {
    let mut app = full();
    let ask = &app.asks[0];
    assert_eq!(ask.kind, "atomic_lookup");
    assert_eq!(ask.model_choice, "temporal");
    assert_eq!(ask.fell_back, Some(true));
    assert_eq!(ask.embed_dims, Some(1024));
    assert_eq!(ask.retrieve_k, 64);
    assert_eq!(ask.merged, 5);
    assert_eq!(ask.ranked[0].route, "include");
    assert_eq!(ask.ranked[0].source, "notes");
    assert_eq!(ask.drafts.len(), 1);
    assert_eq!(ask.verify_rounds[0].verdicts[0].verdict, "supports");
    assert_eq!(ask.verify_rounds[0].verdicts[0].memory_index, Some(0));
    assert!(ask.published.as_deref().unwrap().contains("March 14"));
    // Admission already counted the ask; publishing must not count it again.
    assert_eq!(app.total_asks, 1);

    app.inspect = true;
    // What a terminal of 110 columns and 72 rows has room for.
    let body = detail_lines(&app.asks[0], 106);
    assert!(body.len() <= 72 - 5 - 2);
    let text = text_of(&inspect_head(&app.asks[0])) + &text_of(&body);
    for needle in [
        "atomic_lookup",
        "temporal",
        "fell back",
        "1024",
        "include",
        "March 14",
        "supports",
        "published",
        "notes",
    ] {
        assert!(text.contains(needle), "detail view missing {needle}\n{text}");
    }
}

#[test]
fn the_head_tells_how_an_ask_ended() {
    let app = full();
    let head = inspect_head(&app.asks[0]);
    assert_eq!(line_text(&head[0]), "  abc   answered   166ms");
    assert_eq!(line_text(&head[1]), "  brain brain-1   as of 2024-03-01T00:00:00Z");
    assert_eq!(line_text(&head[2]), "  Q When is Ana's birthday?");
    assert_eq!(head[0].spans[1].tone, Tone::Good);
    assert!(head[0].spans[1].bold);
}

#[test]
fn lines_are_laid_out() {
    let app = full();
    let body = detail_lines(&app.asks[0], 106);
    let text: Vec<String> = body.iter().map(line_text).collect();
    assert_eq!(text[0], "  Q When is Ana's birthday?");
    assert_eq!(text[1], "");
    assert_eq!(text[2], "  kind          11ms  ok");
    assert_eq!(text[3], "     chosen        atomic_lookup");
    assert_eq!(text[4], "     confidence    0.420");
    assert_eq!(text[6], "     fell back     yes — confidence below minimum, used atomic_lookup");
    assert!(text.contains(&"     top rrf       0.0310".to_string()));
    assert!(text.contains(&"     threshold     0.550  calibrated".to_string()));
    assert!(text.contains(
        &"     include   ev 0.900  rel 0.880  inj 0.010  con 0.020  rrf 0.016  personal".to_string()
    ));
    assert!(text.contains(&"       text chunk about Ana".to_string()));
    assert!(text.contains(&"       11111111  source notes".to_string()));
    assert!(text.contains(&"     claims        1/1 support".to_string()));
    assert!(text.contains(&"     supports    [memory_0] ".to_string()));
    assert!(text.contains(&"     empty         no".to_string()));
}

#[test]
fn stages_that_did_not_run_say_why() {
    let mut app = App::default();
    app.ingest(r#"{"message":"kind chosen","ask_id":"t","kind":"chitchat","chitchat":true}"#);
    let text = text_of(&detail_lines(&app.asks[0], 80));
    assert!(text.contains("  embed     skipped   chitchat"));
    assert!(text.contains("  generate  waiting"));
    assert!(text.contains("     mode          chitchat, no citations"));
    let mut app = App::default();
    app.ingest(r#"{"message":"empty admission; skipping generator","ask_id":"t"}"#);
    let text = text_of(&detail_lines(&app.asks[0], 80));
    assert!(text.contains("  verify    skipped   nothing admitted"));
    assert!(text.contains("  embed     waiting"));
    app.ingest(r#"{"message":"answer published","ask_id":"t","empty":true,"answer":"no"}"#);
    let text = text_of(&detail_lines(&app.asks[0], 80));
    assert!(text.contains("  embed     not run"));
    assert!(text.contains("     empty         yes"));
}

#[test]
fn repeated_and_failed_runs_are_told_apart() {
    let mut app = App::default();
    app.ingest(r#"{"message":"stage failed","stage":"kind","ms":5,"ask_id":"t","error":"boom"}"#);
    app.ingest(r#"{"message":"stage ok","stage":"kind","ms":7,"ask_id":"t"}"#);
    let text = text_of(&detail_lines(&app.asks[0], 80));
    assert!(text.contains("  kind           5ms  FAILED   run 1\n     boom\n"));
    assert!(text.contains("  kind           7ms  ok   run 2"));
    assert_eq!(row_verdict(&app.asks[0]), ("failed", Tone::Bad));
}

#[test]
fn an_ask_is_counted_once() {
    let mut app = App::default();
    let publish = r#"{"message":"answer published","ask_id":"x1","empty":true,"answer":"a"}"#;
    let admission = r#"{"message":"admission complete","ask_id":"x1","admitted":2}"#;
    app.ingest(publish);
    app.ingest(publish);
    app.ingest(admission);
    app.ingest(admission);
    assert_eq!(app.total_asks, 1);
    assert_eq!(app.empty_admits, 1);
    // The admission said it was not empty, so an empty answer after it counts as empty again.
    app.ingest(publish);
    assert_eq!(app.total_asks, 1);
    assert_eq!(app.empty_admits, 2);
}

#[test]
fn either_id_may_be_a_prefix() {
    let mut app = App::default();
    app.ingest(r#"{"message":"ask started","ask_id":"abcdef","question":"q"}"#);
    app.ingest(r#"{"message":"embedded","ask_id":"abc","dims":3}"#);
    app.ingest(r#"{"message":"retrieve merged","ask_id":"abcdefgh","merged":4}"#);
    assert_eq!(app.asks.len(), 1);
    assert_eq!(app.asks[0].embed_dims, Some(3));
    assert_eq!(app.asks[0].merged, 4);
    app.ingest(r#"{"message":"embedded","ask_id":"abd","dims":3}"#);
    assert_eq!(app.asks.len(), 2);
}

#[test]
fn only_the_latest_asks_and_events_are_kept() {
    let mut app = App::default();
    for i in 1000..1250 {
        app.ingest(&format!(r#"{{"message":"ask started","ask_id":"{i}"}}"#));
        app.ingest(r#"{"message":"retrying once","stage":"embed"}"#);
    }
    assert_eq!(app.asks.len(), 200);
    assert_eq!(app.asks[0].id, "1050");
    assert_eq!(app.selected, Some(199));
    assert_eq!(app.events.len(), 100);
}

#[test]
fn events_tell_what_happened() {
    let mut app = App::default();
    app.ingest(r#"{"message":"verify failed; regenerating once","ask_id":"a","attempt":2}"#);
    app.ingest(r#"{"message":"withheld secret-sensitivity rows","withheld":3}"#);
    app.ingest(r#"{"message":"stage failed","stage":"embed","ms":1,"error":"e"}"#);
    app.ingest(r#"{"message":"failed to persist ask record"}"#);
    let told: Vec<String> =
        app.events.iter().map(|n| format!("{}: {}", n.kind, shown(&n.detail))).collect();
    assert_eq!(
        told,
        vec![
            "REGEN: verify attempt 2",
            "WITHHELD: 3 secret rows",
            "embed FAILED: e",
            "PERSIST: failed to persist ask record",
        ]
    );
    assert_eq!(app.asks[0].regens, 2);
    assert_eq!(app.errors, 2);
    assert_eq!(event_tone("embed FAILED"), Tone::Bad);
    assert_eq!(event_tone("REGEN"), Tone::Warn);
    assert_eq!(event_tone("WITHHELD"), Tone::Mauve);
    assert_eq!(event_tone("PERSIST"), Tone::Dim);
    assert_eq!(event_label(&app.events[0]), " REGEN           ");
}

#[test]
fn a_line_that_cannot_be_counted_changes_nothing() {
    let mut app = App::default();
    let line = r#"{"message":"stage ok","stage":"embed","ms":1e30,"ask_id":"a"}"#;
    assert!(app.ingest(line));
    assert_eq!(app.asks[0].total_ms, u64::MAX);
    assert!(!app.ingest(line));
    assert_eq!(app.asks[0].stages.len(), 1);
    assert!(!app.ingest("{"));
}

#[test]
fn a_stage_without_an_ask_adds_to_none() {
    let mut app = App::default();
    assert!(app.ingest(r#"{"message":"stage ok","stage":"embed","ms":1e30,"ask_id":"a"}"#));
    assert!(app.ingest(r#"{"message":"stage ok","stage":"judge","ms":1e30}"#));
    assert!(app.ingest(r#"{"message":"stage failed","stage":"admit","ms":7,"ask_id":"","error":"boom"}"#));
    assert_eq!(app.stage("judge").unwrap().samples, vec![u64::MAX]);
    assert_eq!(app.stage("admit").unwrap().samples, vec![7]);
    assert_eq!(app.stage("admit").unwrap().fails, 1);
    assert_eq!(app.errors, 1);
    assert_eq!(app.events.len(), 1);
    assert_eq!(app.asks.len(), 1);
    assert_eq!(app.asks[0].stages.len(), 1);
    assert_eq!(app.asks[0].total_ms, u64::MAX);
    assert!(!app.asks[0].failed);
}

#[test]
fn only_a_counter_that_a_line_adds_to_can_refuse_it() {
    let mut app = App::default();
    app.errors = u64::MAX;
    app.total_asks = u64::MAX;
    app.empty_admits = u64::MAX;
    assert!(app.ingest(r#"{"message":"ask started","ask_id":"a","question":"q"}"#));
    assert!(app.ingest(r#"{"message":"stage ok","stage":"embed","ms":5,"ask_id":"a"}"#));
    assert!(app.ingest(r#"{"message":"stage failed","stage":"embed"}"#));
    assert!(!app.ingest(r#"{"message":"stage failed","stage":"embed","ms":5,"ask_id":"a"}"#));
    assert!(!app.ingest(r#"{"message":"failed to persist the answer"}"#));
    assert!(!app.ingest(r#"{"message":"admission complete","ask_id":"a","admitted":1}"#));
    assert!(!app.ingest(r#"{"message":"answer published","ask_id":"a"}"#));
    app.total_asks = 0;
    assert!(!app.ingest(r#"{"message":"admission complete","ask_id":"a","admitted":0}"#));
    assert!(!app.ingest(r#"{"message":"answer published","ask_id":"a","empty":true}"#));
    assert!(app.ingest(r#"{"message":"admission complete","ask_id":"a","admitted":1}"#));
    app.total_asks = u64::MAX;
    assert!(app.ingest(r#"{"message":"admission complete","ask_id":"a","admitted":1}"#));
    assert!(app.ingest(r#"{"message":"answer published","ask_id":"a"}"#));
    assert_eq!(app.total_asks, u64::MAX);
}

#[test]
fn rows_without_their_parts_are_left_out() {
    let mut app = App::default();
    app.ingest(
        r#"{"message":"ask detail","ask_id":"a","question":"q","ranked":[{"statement":"s","noul":1,"origin":null,"admitted":true},{"statement":"s","noul":"1","origin":"p","admitted":true},5]}"#,
    );
    let rows = &app.asks[0].ranked;
    assert_eq!(rows.len(), 1);
    assert_eq!(rows[0].origin, "?");
    assert_eq!(rows[0].route, "include");
    assert_eq!(rows[0].noul, score(1.0));
    app.ingest(r#"{"message":"ask detail","ask_id":"a","ranked":"not a list"}"#);
    assert_eq!(app.asks[0].ranked.len(), 1);
    app.ingest(
        r#"{"message":"verify verdicts","ask_id":"a","verdicts":[{"claim":"c","verdict":"v","memory_index":-1},{"claim":"c"}]}"#,
    );
    assert_eq!(app.asks[0].verify_rounds[0].verdicts.len(), 1);
    assert_eq!(app.asks[0].verify_rounds[0].verdicts[0].memory_index, None);
}

#[test]
fn optional_values_are_tidied() {
    assert_eq!(tidy_debug_opt(" Some(x) "), "x");
    assert_eq!(tidy_debug_opt("None"), "");
    assert_eq!(tidy_debug_opt("Some(x"), "Some(x");
    assert_eq!(tidy_debug_opt("Some()"), "");
    assert_eq!(tidy_debug_opt("plain"), "plain");
}

#[test]
fn a_stage_keeps_its_latest_latencies() {
    let mut s = Stage::new();
    assert_eq!((s.last(), s.max(), s.p50()), (0, 0, 0));
    for ms in [5u64, 1, 4, 2, 3] {
        s.push(ms, true);
    }
    assert_eq!((s.last(), s.max(), s.p50()), (3, 5, 3));
    s.push(9, false);
    assert_eq!(s.p50(), 4);
    assert_eq!(s.fails, 1);
    for _ in 0..SPARK_WIDTH {
        s.push(2500, true);
    }
    assert_eq!(s.samples.len(), SPARK_WIDTH);
    assert_eq!(s.max(), 2500);
    assert_eq!(stage_tone(&s), Tone::Bad);
    assert_eq!(line_text(&stage_line("embed", &s)), " embed      2500ms p50  2500 max  2500");
}

#[test]
fn text_is_broken_at_spaces() {
    assert_eq!(break_lines("aaa bbb ccc", 7, 7), vec!["aaa", "bbb ccc"]);
    assert_eq!(break_lines("aaa bbb ccc", 8, 8), vec!["aaa bbb", "ccc"]);
    assert_eq!(break_lines("aaaaaaaaaa", 4, 3), vec!["aaaa", "aaa", "aaa"]);
    assert_eq!(break_lines("a bbbbbbbbbbbb", 10, 10), vec!["a bbbbbbbb", "bbbb"]);
    assert_eq!(break_lines("one two", 3, 9), vec!["one", "two"]);
    assert!(break_lines("", 3, 3).is_empty());
    let mut out: Vec<Line> = vec![];
    push_wrapped(&mut out, "  Q ", "    ", "", 10, Tone::Fg);
    push_wrapped(&mut out, "  Q ", "    ", "word word word word word", 10, Tone::Fg);
    let text: Vec<String> = out.iter().map(line_text).collect();
    assert_eq!(text, vec!["  Q ", "  Q word word word word", "    word"]);
}

#[test]
fn keys_move_open_and_scroll() {
    let mut app = App::default();
    assert!(app.on_key(Key::Esc, false));
    for id in ["a", "b", "c"] {
        app.ingest(&format!(r#"{{"message":"ask started","ask_id":"{id}"}}"#));
    }
    assert_eq!(app.selected, Some(2));
    app.on_key(Key::Up, false);
    app.on_key(Key::Char('k'), false);
    app.on_key(Key::Char('k'), false);
    assert_eq!(app.selected, Some(0));
    app.on_key(Key::Down, false);
    assert_eq!(app.selected, Some(1));
    app.on_key(Key::PageDown, false);
    assert_eq!(app.scroll, 0);
    app.on_key(Key::Enter, false);
    assert!(app.inspect);
    app.view_rows = 10;
    app.on_key(Key::Char('d'), false);
    assert_eq!(app.scroll, 0);
    app.on_key(Key::Char('d'), true);
    app.on_key(Key::Char('j'), false);
    assert_eq!(app.scroll, 11);
    app.on_key(Key::PageUp, false);
    assert_eq!(app.scroll, 1);
    app.on_key(Key::End, false);
    assert_eq!(app.scroll, u16::MAX);
    assert_eq!(app.settle_scroll(30, 12), 19);
    assert_eq!(app.scroll, 18);
    assert_eq!(app.settle_scroll(0, 12), 0);
    // An open ask stays put while new ones come in.
    app.ingest(r#"{"message":"ask started","ask_id":"d"}"#);
    assert_eq!(app.selected, Some(1));
    assert!(!app.on_key(Key::Esc, false));
    assert!(!app.inspect);
    assert!(app.on_key(Key::Char('q'), false));
    assert!(app.on_key(Key::Char('c'), true));
    assert!(!app.on_key(Key::Char('c'), false));
    app.move_selection(i32::MAX);
    assert_eq!(app.selected, Some(3));
}

#[test]
fn the_overview_tells_of_service_and_asks() {
    let app = full();
    let line = header_line(&app, 3_725, score(1.25), score(75.0));
    assert_eq!(
        line_text(&line),
        "  recall up 01:02:05  │  asks 1  │  1.2/min  │  admitted 75%  │  empty 0  │  errors 0"
    );
    assert_eq!(line.spans[9].tone, Tone::Good);
    let lines = admission_lines(&app, score(0.9), score(5.0));
    assert_eq!(
        text_of(&lines),
        " threshold     0.550\n calibrated    yes\n avg top noul  0.900\n avg candidates5.0\n"
    );
    assert_eq!(count_empties(&app), 0);
    let rows = ask_rows(&app, 5);
    assert_eq!(rows.len(), 1);
    assert_eq!(line_text(&rows[0]), "abcWhen is Ana's birthday?1/50.900answered");
    assert!(ask_rows(&app, 0).is_empty());
    assert_eq!(shown_ask(&app), Some(0));
    assert_eq!(shown_ask(&App::default()), None);
    assert_eq!(
        line_text(&meta_line(&app.asks[0])),
        " brain brain-1  │  retrieve 4 personal + 1 granted  │  166ms"
    );
    let c = candidate_line(&app.asks[0].ranked[0], score(0.44));
    assert_eq!(line_text(&c), "✓0.900personalAna was born on March 14");
    assert_eq!(c.spans[0].tone, Tone::Good);
}

#[test]
fn the_shown_ask_stays_where_the_oldest_makes_room() {
    let mut app = App::default();
    for i in 1000..1200 {
        app.ingest(&format!(r#"{{"message":"ask started","ask_id":"{i}"}}"#));
    }
    app.move_selection(-100);
    app.on_key(Key::Enter, false);
    let shown = app.asks[app.selected.unwrap()].id.clone();
    for i in 1200..1250 {
        app.ingest(&format!(r#"{{"message":"admission complete","ask_id":"{i}"}}"#));
    }
    assert_eq!(app.asks.len(), 200);
    assert_eq!(app.asks[app.selected.unwrap()].id, shown);
}

#[test]
fn the_time_of_an_ask_is_that_of_its_stages() {
    let app = full();
    for ask in &app.asks {
        assert_eq!(ask.total_ms, ask.stages.iter().map(|s| s.ms).sum::<u64>());
    }
}
