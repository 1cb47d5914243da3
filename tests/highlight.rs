use gpt_cli::fence::find_code_spans;
use gpt_cli::highlight::{highlight_message, language_alias, splice_blocks};
use syntect::highlighting::ThemeSet;
use syntect::parsing::SyntaxSet;

fn grammars() -> (SyntaxSet, ThemeSet) {
    (SyntaxSet::load_defaults_newlines(), ThemeSet::load_defaults())
}

fn chars(s: &str) -> Vec<char> {
    s.chars().collect()
}

#[test]
fn text_without_fences_is_unchanged() {
    let (ps, ts) = grammars();
    for text in ["", "plain words", "one `tick` and two ``ticks``", "line\r\nbreaks\n"] {
        let s = text.to_string();
        assert_eq!(highlight_message(&s, &ps, &ts), s);
    }
}

#[test]
fn resolvable_block_is_coloured_and_unfenced() {
    let (ps, ts) = grammars();
    let s = "```rs\nlet x = 1;\n```".to_string();
    let out = highlight_message(&s, &ps, &ts);
    assert!(!out.contains("```"));
    assert!(out.contains("\x1b[38;2;"));
}

#[test]
fn unresolvable_tag_keeps_body_plain() {
    let (ps, ts) = grammars();
    let s = "Look:\n```zzqq\nsome body text\n```\nend".to_string();
    let out = highlight_message(&s, &ps, &ts);
    assert!(!out.contains("```"));
    assert!(!out.contains("\x1b[38;2;"));
    assert!(out.contains("\nsome body text\n"));
    assert!(out.starts_with("Look:\n"));
    assert!(out.ends_with("\nend"));
}

#[test]
fn tag_is_greyed() {
    let (ps, ts) = grammars();
    let s = "```zzqq\nbody\n```".to_string();
    let out = highlight_message(&s, &ps, &ts);
    assert!(
        out == "\x1b[38;5;7mzzqq\x1b[39m\nbody\n" || out == "\x1b[mzzqq\x1b[m\nbody\n",
        "{:?}",
        out
    );
}

#[test]
fn second_run_changes_nothing() {
    let (ps, ts) = grammars();
    let s = "a\n```rust\nfn f() {}\n```\nb\n```zzqq\nq\n```\n````".to_string();
    let once = highlight_message(&s, &ps, &ts);
    let twice = highlight_message(&once, &ps, &ts);
    assert_eq!(once, twice);
}

#[test]
fn end_to_end_rust_block() {
    let (ps, ts) = grammars();
    let s = "Here:\n```rust\nfn main() {}\n```\nDone.".to_string();
    let out = highlight_message(&s, &ps, &ts);
    assert!(!out.contains('`'));
    assert!(out.starts_with("Here:\n"));
    assert!(out.ends_with("\x1b[0m\n\nDone."), "{:?}", out);
    assert!(out.contains("\x1b[38;2;"));
    assert!(out.contains("main"));
    assert!(!out.contains("fn main() {}"));
}

#[test]
fn duplicate_bodies_replaced_identically() {
    let text = "```py\nx = 1\n```\n```py\nx = 1\n```".to_string();
    let styled = vec!["<T>".to_string(), "<T>".to_string()];
    let renders = vec![Some("<R>".to_string()), Some("<R>".to_string())];
    assert_eq!(splice_blocks(&text, &styled, &renders), "<T>\n<R>\n\n<T>\n<R>\n");
}

#[test]
fn duplicate_body_in_prose_is_replaced_too() {
    let (ps, ts) = grammars();
    let text = "x = 1 first\n```python\nx = 1\n```\nand\n```python\nx = 1\n```".to_string();
    let out = highlight_message(&text, &ps, &ts);
    assert!(!out.contains("x = 1"));
    let first_line = out.split('\n').next().unwrap();
    assert!(first_line.contains("\x1b[38;2;"));
}

#[test]
fn splice_without_renderings_keeps_bodies() {
    let text = "pre ```sh\necho sh\n``` post".to_string();
    let styled = vec!["[sh]".to_string()];
    let renders = vec![None];
    assert_eq!(splice_blocks(&text, &styled, &renders), "pre [sh]\necho sh\n post");
}

#[test]
fn spans_crlf_and_lone_cr() {
    let t = chars("```rs\r\nbody\r\n```");
    let s = find_code_spans(&t);
    assert_eq!(s.len(), 1);
    assert_eq!((s[0].start, s[0].tag_end, s[0].body_start, s[0].body_end, s[0].end), (0, 5, 7, 11, 16));
    let t = chars("```rs\rbody\n```");
    let s = find_code_spans(&t);
    assert_eq!(s.len(), 1);
    assert_eq!((s[0].body_start, s[0].body_end), (6, 10));
    let t = chars("```rs\r\n```");
    let s = find_code_spans(&t);
    assert_eq!(s.len(), 1);
    assert_eq!((s[0].body_start, s[0].body_end, s[0].end), (6, 6, 10));
}

#[test]
fn spans_are_shortest_and_disjoint() {
    let t = chars("```a\n1\n```\n```b\n2\n```");
    let s = find_code_spans(&t);
    assert_eq!(s.len(), 2);
    assert_eq!((s[0].body_start, s[0].body_end, s[0].end), (5, 6, 10));
    assert_eq!((s[1].start, s[1].tag_end), (11, 15));
}

#[test]
fn malformed_fences_form_no_span() {
    for text in ["```\nno tag\n```", "```c++\nx\n```", "```rs body```", "```rs\nunclosed", "``rs\nx\n```"] {
        assert_eq!(find_code_spans(&chars(text)).len(), 0, "{}", text);
    }
}

#[test]
fn unicode_tag_and_extra_backtick() {
    let s = find_code_spans(&chars("```café\nx\n```"));
    assert_eq!(s.len(), 1);
    assert_eq!(s[0].tag_end, 7);
    let s = find_code_spans(&chars("````rs\nx\n```"));
    assert_eq!(s.len(), 1);
    assert_eq!(s[0].start, 1);
}

#[test]
fn aliases() {
    assert_eq!(language_alias("rust"), Some("rs"));
    assert_eq!(language_alias("c++"), Some("cpp"));
    assert_eq!(language_alias("shell"), Some("sh"));
    assert_eq!(language_alias("markdown"), Some("md"));
    assert_eq!(language_alias("webassembly"), Some("wasm"));
    assert_eq!(language_alias("rs"), None);
    assert_eq!(language_alias("Rust"), None);
}

#[test]
fn alias_resolves_long_name() {
    let (ps, ts) = grammars();
    let s = "```python\nprint(1)\n```".to_string();
    let out = highlight_message(&s, &ps, &ts);
    assert!(out.contains("\x1b[38;2;"));
}

#[test]
fn tag_is_greyed_only_in_place() {
    let text = "sh said\n```sh\necho\n```".to_string();
    let styled = vec!["[sh]".to_string()];
    let renders = vec![None];
    assert_eq!(splice_blocks(&text, &styled, &renders), "sh said\n[sh]\necho\n");
}

#[test]
fn body_holding_its_tag_is_still_coloured() {
    let (ps, ts) = grammars();
    let s = "a cat\n```c\nchar c;\n```".to_string();
    let out = highlight_message(&s, &ps, &ts);
    assert!(out.starts_with("a cat\n"));
    assert!(out.contains("\x1b[38;2;"));
    assert!(!out.contains("char c;"));
}
