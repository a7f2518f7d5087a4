//! Rendering of an accepted span table into colorized text.
//!
//! The renderer walks the accepted spans in ascending start order, copies
//! the text between spans verbatim, and replaces each span's text with the
//! same text wrapped in a class-specific escape prefix and a universal
//! reset.  A guarded input (empty, already containing escape sequences, or
//! longer than the length limit) is returned unchanged.

use vstd::prelude::*;

use crate::tokens::TokenClass;
use crate::tokens::Span;
use crate::tokens::SpanModel;
use crate::tokens::models;
use crate::tokens::match_end_at;
use crate::tokens::contains_escape;
use crate::tokens::chars_of;
use crate::tokens::scan_contains_escape;
use crate::tokens::true_chars;
use crate::tokens::false_chars;
use crate::tokens::null_chars;
use crate::tokens::undefined_chars;
use crate::tokens::none_chars;
use crate::tokens::nil_chars;
use crate::tokens::word_at;
use crate::tokens::lemma_word_chars_values;
use crate::resolve::resolve_spec;
use crate::resolve::resolve_spans;
use crate::resolve::table_wf;
use crate::resolve::valid_span;
use crate::resolve::lemma_resolve_wf;

verus! {

/// Lines longer than this many characters are passed through unhighlighted.
pub const HIGHLIGHT_LENGTH_LIMIT: usize = 1000;

/// The universal reset suffix.
pub open spec fn reset_chars() -> Seq<char> {
    seq!['\x1b', '[', '0', 'm']
}

pub open spec fn prefix_string() -> Seq<char> {
    seq!['\x1b', '[', '9', '2', 'm']
}

pub open spec fn prefix_number() -> Seq<char> {
    seq!['\x1b', '[', '9', '3', 'm']
}

pub open spec fn prefix_boolean() -> Seq<char> {
    seq!['\x1b', '[', '9', '3', ';', '1', 'm']
}

pub open spec fn prefix_nullish() -> Seq<char> {
    seq!['\x1b', '[', '9', '0', 'm']
}

pub open spec fn prefix_key() -> Seq<char> {
    seq!['\x1b', '[', '9', '6', 'm']
}

pub open spec fn prefix_bracket() -> Seq<char> {
    seq!['\x1b', '[', '9', '7', 'm']
}

/// The boolean sub-group of the boolean/null-like class gets a bold prefix;
/// the null-like words get a dim one.
pub open spec fn bool_text_is_bold(text: Seq<char>) -> bool {
    text == true_chars() || text == false_chars()
}

/// The colorized replacement for a span of class `class` whose matched text
/// is `text`.  For a key label the colon is kept directly after the reset,
/// outside the colored region, as part of the same rendered unit.
pub open spec fn colorize(class: TokenClass, text: Seq<char>) -> Seq<char> {
    match class {
        TokenClass::StrLit => prefix_string() + text + reset_chars(),
        TokenClass::Number => prefix_number() + text + reset_chars(),
        TokenClass::BoolWord => if bool_text_is_bold(text) {
            prefix_boolean() + text + reset_chars()
        } else {
            prefix_nullish() + text + reset_chars()
        },
        TokenClass::KeyLabel => prefix_key() + text.take(text.len() - 1) + reset_chars()
            + seq![':'],
        TokenClass::Bracket => prefix_bracket() + text + reset_chars(),
    }
}

/// The rendering of `s` from position `cursor` on, given the accepted spans
/// at or after `cursor` in ascending order.
pub open spec fn render_from(s: Seq<char>, spans: Seq<SpanModel>, cursor: int) -> Seq<char>
    decreases spans.len(),
{
    if spans.len() == 0 {
        s.subrange(cursor, s.len() as int)
    } else {
        s.subrange(cursor, spans[0].start) + colorize(
            spans[0].class,
            s.subrange(spans[0].start, spans[0].end),
        ) + render_from(s, spans.drop_first(), spans[0].end)
    }
}

/// What highlighting produces: the input itself when it is empty, already
/// escaped, or over the length limit, and otherwise the rendering of its
/// priority-resolved span table.
pub open spec fn highlight_spec(s: Seq<char>) -> Seq<char> {
    if s.len() == 0 || s.len() > HIGHLIGHT_LENGTH_LIMIT as int || contains_escape(s) {
        s
    } else {
        render_from(s, resolve_spec(s), 0)
    }
}

/// A boolean-class token is one of the six words, and the bold sub-group is
/// recognised by length and first character alone.
proof fn lemma_bool_word_shape(s: Seq<char>, start: int, end: int)
    requires
        match_end_at(s, TokenClass::BoolWord, start) == Some(end),
        0 <= start < end <= s.len(),
    ensures
        bool_text_is_bold(s.subrange(start, end)) <==> ((end - start == 4 && s[start] == 't') || end
            - start == 5),
{
    reveal(match_end_at);
    lemma_word_chars_values();
    let t = s.subrange(start, end);
    if word_at(s, start, undefined_chars()) && end == start + 9 {
        assert(t != true_chars() && t != false_chars());
    } else if word_at(s, start, false_chars()) && end == start + 5 {
        assert(t =~= false_chars());
    } else if word_at(s, start, true_chars()) && end == start + 4 {
        assert(t =~= true_chars());
        assert(t[0] == 't');
    } else if word_at(s, start, null_chars()) && end == start + 4 {
        assert(t[0] == 'n');
        assert(t != true_chars() && t != false_chars());
    } else if word_at(s, start, none_chars()) && end == start + 4 {
        assert(t[0] == 'N');
        assert(t != true_chars() && t != false_chars());
    } else if word_at(s, start, nil_chars()) && end == start + 3 {
        assert(t != true_chars() && t != false_chars());
    }
}

/// The colorized replacement for the span `sp` of `text`.
fn colorize_span(text: &str, sp: &Span) -> (r: String)
    requires
        valid_span(text@, sp@),
    ensures
        r@ == colorize(sp@.class, text@.subrange(sp@.start, sp@.end)),
{
    proof {
        reveal_strlit("\x1b[92m");
        reveal_strlit("\x1b[93m");
        reveal_strlit("\x1b[93;1m");
        reveal_strlit("\x1b[90m");
        reveal_strlit("\x1b[96m");
        reveal_strlit("\x1b[97m");
        reveal_strlit("\x1b[0m");
        reveal_strlit(":");
    }
    let mut out = String::new();
    match sp.class {
        TokenClass::StrLit => {
            assert("\x1b[92m"@ =~= prefix_string());
            out.append("\x1b[92m");
            out.append(text.substring_char(sp.start, sp.end));
        },
        TokenClass::Number => {
            assert("\x1b[93m"@ =~= prefix_number());
            out.append("\x1b[93m");
            out.append(text.substring_char(sp.start, sp.end));
        },
        TokenClass::BoolWord => {
            proof {
                lemma_bool_word_shape(text@, sp@.start, sp@.end);
            }
            if sp.end - sp.start == 5 || (sp.end - sp.start == 4 && text.get_char(sp.start)
                == 't') {
                assert("\x1b[93;1m"@ =~= prefix_boolean());
                out.append("\x1b[93;1m");
            } else {
                assert("\x1b[90m"@ =~= prefix_nullish());
                out.append("\x1b[90m");
            }
            out.append(text.substring_char(sp.start, sp.end));
        },
        TokenClass::KeyLabel => {
            assert("\x1b[96m"@ =~= prefix_key());
            out.append("\x1b[96m");
            out.append(text.substring_char(sp.start, sp.end - 1));
            assert(text@.subrange(sp@.start, sp@.end - 1) =~= text@.subrange(
                sp@.start,
                sp@.end,
            ).take(sp@.end - sp@.start - 1));
        },
        TokenClass::Bracket => {
            assert("\x1b[97m"@ =~= prefix_bracket());
            out.append("\x1b[97m");
            out.append(text.substring_char(sp.start, sp.end));
        },
    }
    assert("\x1b[0m"@ =~= reset_chars());
    out.append("\x1b[0m");
    if matches!(sp.class, TokenClass::KeyLabel) {
        out.append(":");
    }
    out
}

/// Render the accepted spans of `text` into the colorized output.
fn render_text(text: &str, tbl: &Vec<Span>) -> (r: String)
    requires
        table_wf(text@, models(tbl@)),
    ensures
        r@ == render_from(text@, models(tbl@), 0),
{
    let n = text.unicode_len();
    let ghost all = models(tbl@);
    let mut out = String::new();
    let mut cursor: usize = 0;
    let mut k: usize = 0;
    assert(all.skip(0) =~= all);
    while k < tbl.len()
        invariant
            k <= tbl@.len(),
            n == text@.len(),
            all == models(tbl@),
            table_wf(text@, all),
            cursor <= n,
            k < tbl@.len() ==> cursor <= all[k as int].start,
            out@ + render_from(text@, all.skip(k as int), cursor as int) == render_from(
                text@,
                all,
                0,
            ),
        decreases tbl@.len() - k,
    {
        let sp = tbl[k];
        assert(all[k as int] == sp@);
        assert(valid_span(text@, sp@));
        let ghost rem = all.skip(k as int);
        assert(rem[0] == sp@);
        out.append(text.substring_char(cursor, sp.start));
        let piece = colorize_span(text, &sp);
        out.append(piece.as_str());
        proof {
            assert(rem.drop_first() =~= all.skip(k + 1));
        }
        cursor = sp.end;
        k = k + 1;
        proof {
            if k < tbl@.len() {
                assert(all[k - 1].end <= all[k as int].start);
            }
        }
    }
    assert(all.skip(k as int) =~= Seq::<SpanModel>::empty());
    out.append(text.substring_char(cursor, n));
    out
}

/// Does `text` already contain a terminal escape sequence?  Used as the
/// idempotence guard: previously rendered output is never re-highlighted.
pub fn contains_ansi_codes(text: &str) -> (r: bool)
    ensures
        r == contains_escape(text@),
{
    let cs = chars_of(text);
    scan_contains_escape(&cs)
}

/// Highlight the lexical tokens of one line of text with terminal colors.
///
/// Empty input, input that already contains escape sequences and input over
/// the length limit are returned unchanged; otherwise every accepted span
/// is wrapped in its class's escape prefix and the universal reset, and all
/// other text is copied through verbatim.
pub fn highlight_syntax(text: &str) -> (r: String)
    ensures
        r@ == highlight_spec(text@),
{
    let n = text.unicode_len();
    if n == 0 || n > HIGHLIGHT_LENGTH_LIMIT {
        return text.to_owned();
    }
    let cs = chars_of(text);
    if scan_contains_escape(&cs) {
        return text.to_owned();
    }
    let tbl = resolve_spans(&cs);
    proof {
        lemma_resolve_wf(text@);
    }
    render_text(text, &tbl)
}

} // verus!
