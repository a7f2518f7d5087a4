use fox::render::highlight_syntax;
use fox::render::contains_ansi_codes;
use fox::resolve::resolve_spans;
use fox::tokens::chars_of;
use fox::tokens::Span;
use fox::tokens::TokenClass;

#[test]
fn key_and_number() {
    let out = highlight_syntax("key: 42");
    assert_eq!(out, "\x1b[96mkey\x1b[0m: \x1b[93m42\x1b[0m");
}

#[test]
fn key_and_number_with_value_word() {
    let out = highlight_syntax("value: 123");
    assert_eq!(out, "\x1b[96mvalue\x1b[0m: \x1b[93m123\x1b[0m");
}

#[test]
fn quoted_string_wins_whole_span() {
    let out = highlight_syntax("\"hello: 5\"");
    assert_eq!(out, "\x1b[92m\"hello: 5\"\x1b[0m");
}

#[test]
fn booleans_and_null_words() {
    let out = highlight_syntax("true false null");
    assert_eq!(out, "\x1b[93;1mtrue\x1b[0m \x1b[93;1mfalse\x1b[0m \x1b[90mnull\x1b[0m");
}

#[test]
fn null_like_words_are_dim() {
    assert_eq!(highlight_syntax("undefined"), "\x1b[90mundefined\x1b[0m");
    assert_eq!(highlight_syntax("None"), "\x1b[90mNone\x1b[0m");
    assert_eq!(highlight_syntax("nil"), "\x1b[90mnil\x1b[0m");
}

#[test]
fn preexisting_escape_passes_through() {
    let input = "before \x1b[31mred\x1b[0m after";
    assert_eq!(highlight_syntax(input), input);
}

#[test]
fn long_line_passes_through() {
    let mut input = String::new();
    for _ in 0..1001 {
        input.push('a');
    }
    assert_eq!(highlight_syntax(&input), input);
}

#[test]
fn line_at_the_limit_is_still_highlighted() {
    let mut input = String::new();
    for _ in 0..996 {
        input.push('x');
    }
    input.push_str(" 512");
    let out = highlight_syntax(&input);
    assert_ne!(out, input);
    assert!(out.ends_with("\x1b[93m512\x1b[0m"));
}

#[test]
fn empty_input_is_identity() {
    assert_eq!(highlight_syntax(""), "");
}

#[test]
fn highlight_is_idempotent() {
    let once = highlight_syntax("key: 42 [true]");
    let twice = highlight_syntax(&once);
    assert_eq!(twice, once);
}

#[test]
fn stripping_escapes_recovers_input() {
    let input = "key: 42 \"s\" [true] nil";
    let out = highlight_syntax(input);
    let stripped = out
        .replace("\x1b[92m", "")
        .replace("\x1b[93;1m", "")
        .replace("\x1b[93m", "")
        .replace("\x1b[90m", "")
        .replace("\x1b[96m", "")
        .replace("\x1b[97m", "")
        .replace("\x1b[0m", "");
    assert_eq!(stripped, input);
}

#[test]
fn brackets_each_their_own_span() {
    let out = highlight_syntax("[ok]");
    assert_eq!(out, "\x1b[97m[\x1b[0mok\x1b[97m]\x1b[0m");
}

#[test]
fn unterminated_quote_is_no_string() {
    let out = highlight_syntax("it's 5");
    assert_eq!(out, "it's \x1b[93m5\x1b[0m");
}

#[test]
fn digits_inside_identifiers_are_not_numbers() {
    assert_eq!(highlight_syntax("x12 12x"), "x12 12x");
}

#[test]
fn decimal_number_is_one_span() {
    assert_eq!(highlight_syntax("3.14"), "\x1b[93m3.14\x1b[0m");
}

#[test]
fn escaped_quote_stays_inside_string() {
    let out = highlight_syntax("\"a\\\"b\"");
    assert_eq!(out, "\x1b[92m\"a\\\"b\"\x1b[0m");
}

#[test]
fn number_beats_key_label_on_overlap() {
    let spans = resolve_spans(&chars_of("12:34"));
    assert_eq!(spans.len(), 2);
    assert_eq!(spans[0], Span { start: 0, end: 2, class: TokenClass::Number });
    assert_eq!(spans[1], Span { start: 3, end: 5, class: TokenClass::Number });
    assert_eq!(highlight_syntax("12:34"), "\x1b[93m12\x1b[0m:\x1b[93m34\x1b[0m");
}

#[test]
fn accepted_spans_never_overlap() {
    let inputs = ["key: 42", "\"a: 1\" b: 2 [true, nil] 3.5", "12:34 x(9)"];
    for input in inputs.iter() {
        let spans = resolve_spans(&chars_of(input));
        for a in 0..spans.len() {
            for b in 0..spans.len() {
                if a != b {
                    let sa = &spans[a];
                    let sb = &spans[b];
                    assert!(sa.end <= sb.start || sb.end <= sa.start);
                }
            }
        }
    }
}

#[test]
fn string_span_excludes_inner_tokens() {
    let spans = resolve_spans(&chars_of("\"a: 1\" 2"));
    assert_eq!(spans.len(), 2);
    assert_eq!(spans[0], Span { start: 0, end: 6, class: TokenClass::StrLit });
    assert_eq!(spans[1], Span { start: 7, end: 8, class: TokenClass::Number });
}

#[test]
fn detects_ansi_codes() {
    assert!(contains_ansi_codes("a\x1b[31mb"));
    assert!(contains_ansi_codes("\x1b[0m"));
    assert!(contains_ansi_codes("\x1b[93;1mbold"));
    assert!(!contains_ansi_codes("plain text"));
    assert!(!contains_ansi_codes(""));
    assert!(!contains_ansi_codes("\x1b alone"));
    assert!(!contains_ansi_codes("\x1b[12;34"));
}
