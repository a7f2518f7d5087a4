//! The laws of the highlighter, stated and proved over the spec model.
//!
//! These public proof functions state what holds of `highlight_spec` (and
//! hence of `highlight_syntax`, whose contract is exactly `highlight_spec`):
//! identity on guarded input, idempotence, non-overlap and priority
//! precedence of the accepted spans, and content preservation under
//! stripping of escape sequences.

use vstd::prelude::*;

use crate::tokens::SpanModel;
use crate::tokens::TokenClass;
use crate::tokens::escape_at;
use crate::tokens::contains_escape;
use crate::tokens::is_alpha_char;
use crate::tokens::is_csi_param_char;
use crate::tokens::match_end_at;
use crate::tokens::word_run_end;
use crate::tokens::lemma_word_run_end_bounds;
use crate::tokens::class_matches;
use crate::tokens::lemma_class_matches_from_wf;
use crate::resolve::table_wf;
use crate::resolve::valid_span;
use crate::resolve::overlaps;
use crate::resolve::overlaps_any;
use crate::resolve::add_matches;
use crate::resolve::resolve_spec;
use crate::resolve::lemma_resolve_wf;
use crate::resolve::lemma_add_matches_mono;
use crate::resolve::lemma_add_matches_from;
use crate::resolve::lemma_add_matches_reject;
use crate::resolve::lemma_add_matches_accepts;
use crate::render::highlight_spec;
use crate::render::HIGHLIGHT_LENGTH_LIMIT;
use crate::render::colorize;
use crate::render::render_from;
use crate::render::reset_chars;
use crate::render::prefix_string;
use crate::render::prefix_number;
use crate::render::prefix_boolean;
use crate::render::prefix_nullish;
use crate::render::prefix_key;
use crate::render::prefix_bracket;
use crate::render::bool_text_is_bold;

verus! {

/// The end of the maximal run of escape-parameter characters starting at `i`.
pub open spec fn param_run_end(s: Seq<char>, i: int) -> int
    decreases s.len() - i when 0 <= i <= s.len()
{
    if i < s.len() && is_csi_param_char(s[i]) {
        param_run_end(s, i + 1)
    } else {
        i
    }
}

/// The length of the escape sequence that starts at position `i`, if one
/// does: control byte, `[`, the maximal parameter run, one final letter.
pub open spec fn escape_len_at(s: Seq<char>, i: int) -> Option<int> {
    if 0 <= i && i + 2 <= s.len() && s[i] == '\x1b' && s[i + 1] == '[' {
        let j = param_run_end(s, i + 2);
        if j < s.len() && is_alpha_char(s[j]) {
            Some(j + 1 - i)
        } else {
            None
        }
    } else {
        None
    }
}

/// `s` with every escape sequence removed, scanning left to right.
pub open spec fn strip_escapes(s: Seq<char>) -> Seq<char>
    decreases s.len(),
{
    if s.len() == 0 {
        Seq::empty()
    } else {
        match escape_len_at(s, 0) {
            Some(l) => {
                if 0 < l <= s.len() {
                    strip_escapes(s.skip(l))
                } else {
                    seq![s[0]] + strip_escapes(s.skip(1))
                }
            },
            None => seq![s[0]] + strip_escapes(s.skip(1)),
        }
    }
}

proof fn lemma_param_run_end_bounds(s: Seq<char>, i: int)
    requires
        0 <= i <= s.len(),
    ensures
        i <= param_run_end(s, i) <= s.len(),
        forall|m: int| i <= m < param_run_end(s, i) ==> is_csi_param_char(#[trigger] s[m]),
        param_run_end(s, i) < s.len() ==> !is_csi_param_char(s[param_run_end(s, i)]),
    decreases s.len() - i,
{
    if i < s.len() && is_csi_param_char(s[i]) {
        lemma_param_run_end_bounds(s, i + 1);
    }
}

proof fn lemma_param_run_end_exact(s: Seq<char>, i: int, j: int)
    requires
        0 <= i <= j <= s.len(),
        forall|m: int| i <= m < j ==> is_csi_param_char(#[trigger] s[m]),
        j < s.len() ==> !is_csi_param_char(s[j]),
    ensures
        param_run_end(s, i) == j,
    decreases j - i,
{
    if i < j {
        lemma_param_run_end_exact(s, i + 1, j);
    }
}

/// The deterministic scan agrees with the existential escape predicate.
proof fn lemma_escape_len_iff(s: Seq<char>, i: int)
    requires
        0 <= i,
    ensures
        escape_at(s, i) <==> escape_len_at(s, i) is Some,
        escape_len_at(s, i) is Some ==> 3 <= escape_len_at(s, i)->Some_0 && i + escape_len_at(
            s,
            i,
        )->Some_0 <= s.len(),
{
    if i + 2 <= s.len() && s[i] == '\x1b' && s[i + 1] == '[' {
        lemma_param_run_end_bounds(s, i + 2);
        let j = param_run_end(s, i + 2);
        if j < s.len() && is_alpha_char(s[j]) {
            assert(escape_at(s, i)) by {
                assert(i + 2 <= j < s.len() && is_alpha_char(s[j]) && (forall|m: int|
                    i + 2 <= m < j ==> is_csi_param_char(#[trigger] s[m])));
            }
        } else {
            assert(!escape_at(s, i)) by {
                if escape_at(s, i) {
                    let k = choose|k: int|
                        #![trigger s[k]]
                        i + 2 <= k < s.len() && is_alpha_char(s[k]) && (forall|m: int|
                            i + 2 <= m < k ==> is_csi_param_char(#[trigger] s[m]));
                    if k < j {
                        assert(is_csi_param_char(s[k]));
                    } else if k > j && j < s.len() {
                        assert(is_csi_param_char(s[j]));
                    }
                }
            }
        }
    } else {
        assert(!escape_at(s, i));
    }
}

/// An escape sequence inside a suffix of `s` is an escape sequence of `s`.
proof fn lemma_escape_at_skip(s: Seq<char>, d: int, i: int)
    requires
        0 <= d <= s.len(),
        escape_at(s.skip(d), i),
    ensures
        escape_at(s, d + i),
{
    let t = s.skip(d);
    let k = choose|k: int|
        #![trigger t[k]]
        i + 2 <= k < t.len() && is_alpha_char(t[k]) && (forall|m: int|
            i + 2 <= m < k ==> is_csi_param_char(#[trigger] t[m]));
    assert(s[d + i] == t[i]);
    assert(s[d + i + 1] == t[i + 1]);
    assert(d + i + 2 <= d + k < s.len() && is_alpha_char(s[d + k]) && (forall|m: int|
        d + i + 2 <= m < d + k ==> is_csi_param_char(#[trigger] s[m]))) by {
        assert(s[d + k] == t[k]);
        assert forall|m: int| d + i + 2 <= m < d + k implies is_csi_param_char(#[trigger] s[m]) by {
            assert(t[m - d] == s[m]);
            assert(is_csi_param_char(t[m - d]));
        }
    }
}

/// Text without escape sequences is left unchanged by stripping.
proof fn lemma_strip_no_escape(s: Seq<char>)
    requires
        forall|i: int| !escape_at(s, i),
    ensures
        strip_escapes(s) == s,
    decreases s.len(),
{
    if s.len() == 0 {
        assert(strip_escapes(s) =~= s);
    } else {
        lemma_escape_len_iff(s, 0);
        assert(escape_len_at(s, 0) is None);
        assert forall|i: int| !escape_at(s.skip(1), i) by {
            if 0 <= i && escape_at(s.skip(1), i) {
                lemma_escape_at_skip(s, 1, i);
            }
        }
        lemma_strip_no_escape(s.skip(1));
        assert(seq![s[0]] + s.skip(1) =~= s);
    }
}

/// Stripping passes an escape-free prefix through and goes on behind it,
/// provided no escape sequence of the whole starts inside the prefix.
proof fn lemma_strip_concat(a: Seq<char>, b: Seq<char>)
    requires
        forall|i: int| 0 <= i < a.len() ==> !escape_at(a + b, i),
    ensures
        strip_escapes(a + b) == a + strip_escapes(b),
    decreases a.len(),
{
    if a.len() == 0 {
        assert(a + b =~= b);
        assert(a + strip_escapes(b) =~= strip_escapes(b));
    } else {
        let s = a + b;
        lemma_escape_len_iff(s, 0);
        assert(escape_len_at(s, 0) is None);
        assert(strip_escapes(s) == seq![s[0]] + strip_escapes(s.skip(1)));
        let a2 = a.drop_first();
        assert(s.skip(1) =~= a2 + b);
        assert forall|i: int| 0 <= i < a2.len() implies !escape_at(a2 + b, i) by {
            if escape_at(a2 + b, i) {
                assert(a2 + b =~= s.skip(1));
                lemma_escape_at_skip(s, 1, i);
            }
        }
        lemma_strip_concat(a2, b);
        assert(seq![s[0]] + (a2 + strip_escapes(b)) =~= a + strip_escapes(b));
    }
}

/// Stripping removes an exact escape sequence from the front.
proof fn lemma_strip_exact_escape(e: Seq<char>, b: Seq<char>)
    requires
        e.len() >= 3,
        e[0] == '\x1b',
        e[1] == '[',
        forall|m: int| 2 <= m < e.len() - 1 ==> is_csi_param_char(#[trigger] e[m]),
        is_alpha_char(e[e.len() - 1]),
    ensures
        strip_escapes(e + b) == strip_escapes(b),
{
    let s = e + b;
    let l = e.len() as int;
    assert(s[0] == '\x1b');
    assert(s[1] == '[');
    assert(!is_csi_param_char(s[l - 1]));
    lemma_param_run_end_exact(s, 2, l - 1);
    assert(escape_len_at(s, 0) == Some(l));
    assert(strip_escapes(s) == strip_escapes(s.skip(l)));
    assert(s.skip(l) =~= b);
}

/// An escape sequence inside a slice of `s` is an escape sequence of `s`.
proof fn lemma_escape_at_subrange(s: Seq<char>, c: int, d: int, i: int)
    requires
        0 <= c <= d <= s.len(),
        escape_at(s.subrange(c, d), i),
    ensures
        escape_at(s, c + i),
{
    let t = s.subrange(c, d);
    let k = choose|k: int|
        #![trigger t[k]]
        i + 2 <= k < t.len() && is_alpha_char(t[k]) && (forall|m: int|
            i + 2 <= m < k ==> is_csi_param_char(#[trigger] t[m]));
    assert(s[c + i] == t[i]);
    assert(s[c + i + 1] == t[i + 1]);
    assert(c + i + 2 <= c + k < s.len() && is_alpha_char(s[c + k]) && (forall|m: int|
        c + i + 2 <= m < c + k ==> is_csi_param_char(#[trigger] s[m]))) by {
        assert(s[c + k] == t[k]);
        assert forall|m: int| c + i + 2 <= m < c + k implies is_csi_param_char(#[trigger] s[m]) by {
            assert(t[m - c] == s[m]);
            assert(is_csi_param_char(t[m - c]));
        }
    }
}

/// An escape sequence cannot start inside `a` and reach into `b` when `b`
/// begins with the escape control byte: it must lie within `a`.
proof fn lemma_escape_stays_in_prefix(a: Seq<char>, b: Seq<char>, i: int)
    requires
        0 <= i < a.len(),
        b.len() > 0,
        b[0] == '\x1b',
        escape_at(a + b, i),
    ensures
        escape_at(a, i),
{
    let s = a + b;
    let al = a.len() as int;
    let k = choose|k: int|
        #![trigger s[k]]
        i + 2 <= k < s.len() && is_alpha_char(s[k]) && (forall|m: int|
            i + 2 <= m < k ==> is_csi_param_char(#[trigger] s[m]));
    assert(s[al] == b[0]);
    assert(k < al) by {
        if k == al {
            assert(is_alpha_char('\x1b'));
        } else if k > al {
            if al == i + 1 {
                assert(s[i + 1] == '[');
            } else {
                assert(is_csi_param_char(s[al]));
            }
        }
    }
    assert(a[i] == s[i]);
    assert(a[i + 1] == s[i + 1]);
    assert(i + 2 <= k < a.len() && is_alpha_char(a[k]) && (forall|m: int|
        i + 2 <= m < k ==> is_csi_param_char(#[trigger] a[m]))) by {
        assert(a[k] == s[k]);
        assert forall|m: int| i + 2 <= m < k implies is_csi_param_char(#[trigger] a[m]) by {
            assert(a[m] == s[m]);
        }
    }
}

/// A key-label token ends with its colon.
proof fn lemma_key_span_colon(s: Seq<char>, start: int, end: int)
    requires
        match_end_at(s, TokenClass::KeyLabel, start) == Some(end),
    ensures
        0 <= start < end - 1 < s.len(),
        s[end - 1] == ':',
{
    reveal(match_end_at);
    let w = word_run_end(s, start);
    lemma_word_run_end_bounds(s, start);
    assert(word_run_end(s, start) == word_run_end(s, start + 1));
    lemma_word_run_end_bounds(s, start + 1);
    assert(s[w] == ':');
}

/// Stripping a colorized piece yields the matched text back: the prefix and
/// the reset are removed whole, the text between them passes through.
proof fn lemma_strip_colorized(pfx: Seq<char>, s: Seq<char>, st: int, tend: int, r: Seq<char>)
    requires
        !contains_escape(s),
        0 <= st <= tend <= s.len(),
        pfx.len() >= 3,
        pfx[0] == '\x1b',
        pfx[1] == '[',
        forall|m: int| 2 <= m < pfx.len() - 1 ==> is_csi_param_char(#[trigger] pfx[m]),
        is_alpha_char(pfx[pfx.len() - 1]),
    ensures
        strip_escapes(pfx + s.subrange(st, tend) + reset_chars() + r) == s.subrange(st, tend)
            + strip_escapes(r),
{
    let t = s.subrange(st, tend);
    let tail = reset_chars() + r;
    assert(pfx + t + reset_chars() + r =~= pfx + (t + tail));
    lemma_strip_exact_escape(pfx, t + tail);
    assert forall|i: int| 0 <= i < t.len() implies !escape_at(t + tail, i) by {
        if escape_at(t + tail, i) {
            assert(tail[0] == '\x1b');
            lemma_escape_stays_in_prefix(t, tail, i);
            lemma_escape_at_subrange(s, st, tend, i);
        }
    }
    lemma_strip_concat(t, tail);
    assert(reset_chars()[reset_chars().len() - 1] == 'm');
    assert forall|m: int| 2 <= m < reset_chars().len() - 1 implies is_csi_param_char(
        #[trigger] reset_chars()[m],
    ) by {
        assert(reset_chars()[2] == '0');
    }
    lemma_strip_exact_escape(reset_chars(), r);
}

/// Every class prefix is shaped as one whole escape sequence.
proof fn lemma_prefix_shapes()
    ensures
        forall|p: Seq<char>|
            #![trigger p.len()]
            (p == prefix_string() || p == prefix_number() || p == prefix_boolean() || p
                == prefix_nullish() || p == prefix_key() || p == prefix_bracket()) ==> {
                &&& p.len() >= 3
                &&& p[0] == '\x1b'
                &&& p[1] == '['
                &&& (forall|m: int| 2 <= m < p.len() - 1 ==> is_csi_param_char(#[trigger] p[m]))
                &&& is_alpha_char(p[p.len() - 1])
            },
{
    assert forall|p: Seq<char>|
        #![trigger p.len()]
        (p == prefix_string() || p == prefix_number() || p == prefix_boolean() || p
            == prefix_nullish() || p == prefix_key() || p == prefix_bracket()) implies {
        &&& p.len() >= 3
        &&& p[0] == '\x1b'
        &&& p[1] == '['
        &&& (forall|m: int| 2 <= m < p.len() - 1 ==> is_csi_param_char(#[trigger] p[m]))
        &&& is_alpha_char(p[p.len() - 1])
    } by {
        assert forall|m: int| 2 <= m < p.len() - 1 implies is_csi_param_char(#[trigger] p[m]) by {
            if p == prefix_boolean() {
                assert(p[2] == '9' && p[3] == '3' && p[4] == ';' && p[5] == '1');
            } else {
                assert(p[2] == '9');
                assert(is_csi_param_char(p[3]));
            }
        }
    }
}

/// Stripping the rendering of a well-formed span table recovers the text.
proof fn lemma_strip_render(s: Seq<char>, spans: Seq<SpanModel>, cursor: int)
    requires
        !contains_escape(s),
        0 <= cursor <= s.len(),
        table_wf(s, spans),
        spans.len() > 0 ==> cursor <= spans[0].start,
    ensures
        strip_escapes(render_from(s, spans, cursor)) == s.subrange(cursor, s.len() as int),
    decreases spans.len(),
{
    if spans.len() == 0 {
        let t = s.subrange(cursor, s.len() as int);
        assert forall|i: int| !escape_at(t, i) by {
            if 0 <= i && escape_at(t, i) {
                lemma_escape_at_subrange(s, cursor, s.len() as int, i);
            }
        }
        lemma_strip_no_escape(t);
    } else {
        let sp = spans[0];
        assert(valid_span(s, sp));
        let st = sp.start;
        let end = sp.end;
        let a = s.subrange(cursor, st);
        let t = s.subrange(st, end);
        let c = colorize(sp.class, t);
        let rest = spans.drop_first();
        assert(table_wf(s, rest)) by {
            assert forall|k: int| 0 <= k < rest.len() implies valid_span(s, #[trigger] rest[k]) by {
                assert(rest[k] == spans[k + 1]);
            }
            assert forall|x: int, y: int| 0 <= x < y < rest.len() implies (
            #[trigger] rest[x]).end <= (#[trigger] rest[y]).start by {
                assert(rest[x] == spans[x + 1]);
                assert(rest[y] == spans[y + 1]);
            }
        }
        if rest.len() > 0 {
            assert(rest[0] == spans[1]);
            assert(spans[0].end <= spans[1].start);
        }
        lemma_strip_render(s, rest, end);
        let r = render_from(s, rest, end);
        assert(render_from(s, spans, cursor) == a + c + r);
        lemma_prefix_shapes();
        // stripping never starts inside the untouched slice
        assert forall|i: int| 0 <= i < a.len() implies !escape_at(a + (c + r), i) by {
            if escape_at(a + (c + r), i) {
                assert((c + r)[0] == c[0]);
                match sp.class {
                    TokenClass::StrLit => assert(c[0] == '\x1b'),
                    TokenClass::Number => assert(c[0] == '\x1b'),
                    TokenClass::BoolWord => assert(c[0] == '\x1b'),
                    TokenClass::KeyLabel => assert(c[0] == '\x1b'),
                    TokenClass::Bracket => assert(c[0] == '\x1b'),
                }
                lemma_escape_stays_in_prefix(a, c + r, i);
                lemma_escape_at_subrange(s, cursor, st, i);
            }
        }
        assert(a + c + r =~= a + (c + r));
        lemma_strip_concat(a, c + r);
        match sp.class {
            TokenClass::StrLit => {
                assert(c + r =~= prefix_string() + t + reset_chars() + r);
                lemma_strip_colorized(prefix_string(), s, st, end, r);
            },
            TokenClass::Number => {
                assert(c + r =~= prefix_number() + t + reset_chars() + r);
                lemma_strip_colorized(prefix_number(), s, st, end, r);
            },
            TokenClass::BoolWord => {
                if bool_text_is_bold(t) {
                    assert(c + r =~= prefix_boolean() + t + reset_chars() + r);
                    lemma_strip_colorized(prefix_boolean(), s, st, end, r);
                } else {
                    assert(c + r =~= prefix_nullish() + t + reset_chars() + r);
                    lemma_strip_colorized(prefix_nullish(), s, st, end, r);
                }
            },
            TokenClass::KeyLabel => {
                lemma_key_span_colon(s, st, end);
                let tk = s.subrange(st, end - 1);
                assert(t.take(t.len() - 1) =~= tk);
                assert(c + r =~= prefix_key() + tk + reset_chars() + (seq![':'] + r));
                lemma_strip_colorized(prefix_key(), s, st, end - 1, seq![':'] + r);
                assert forall|i: int| 0 <= i < seq![':'].len() implies !escape_at(
                    seq![':'] + r,
                    i,
                ) by {
                    assert((seq![':'] + r)[0] == ':');
                }
                lemma_strip_concat(seq![':'], r);
                assert(strip_escapes(c + r) == tk + (seq![':'] + strip_escapes(r)));
                assert(a + (tk + (seq![':'] + s.subrange(end, s.len() as int))) =~= s.subrange(
                    cursor,
                    s.len() as int,
                ));
            },
            TokenClass::Bracket => {
                assert(c + r =~= prefix_bracket() + t + reset_chars() + r);
                lemma_strip_colorized(prefix_bracket(), s, st, end, r);
            },
        }
        if sp.class != TokenClass::KeyLabel {
            assert(strip_escapes(c + r) == t + strip_escapes(r));
            assert(a + (t + s.subrange(end, s.len() as int)) =~= s.subrange(
                cursor,
                s.len() as int,
            ));
        }
    }
}

/// The token class of each priority rank.
pub open spec fn class_of_priority(p: int) -> TokenClass {
    if p == 1 {
        TokenClass::StrLit
    } else if p == 2 {
        TokenClass::Number
    } else if p == 3 {
        TokenClass::BoolWord
    } else if p == 4 {
        TokenClass::KeyLabel
    } else {
        TokenClass::Bracket
    }
}

/// The span table after the classes of priority `1..=p` have been folded in.
pub open spec fn stage_table(s: Seq<char>, p: int) -> Seq<SpanModel>
    decreases p when p >= 0
{
    if p <= 0 {
        Seq::empty()
    } else {
        add_matches(stage_table(s, p - 1), class_matches(s, class_of_priority(p)))
    }
}

proof fn lemma_resolve_is_stage(s: Seq<char>)
    ensures
        resolve_spec(s) == stage_table(s, 5),
{
    assert(stage_table(s, 0) == Seq::<SpanModel>::empty());
    assert(stage_table(s, 1) == add_matches(
        stage_table(s, 0),
        class_matches(s, TokenClass::StrLit),
    ));
    assert(stage_table(s, 2) == add_matches(
        stage_table(s, 1),
        class_matches(s, TokenClass::Number),
    ));
    assert(stage_table(s, 3) == add_matches(
        stage_table(s, 2),
        class_matches(s, TokenClass::BoolWord),
    ));
    assert(stage_table(s, 4) == add_matches(
        stage_table(s, 3),
        class_matches(s, TokenClass::KeyLabel),
    ));
    assert(stage_table(s, 5) == add_matches(
        stage_table(s, 4),
        class_matches(s, TokenClass::Bracket),
    ));
}

/// Membership in a class's candidate list fixes the class and validity.
proof fn lemma_class_matches_member(s: Seq<char>, c: TokenClass, sp: SpanModel)
    requires
        class_matches(s, c).contains(sp),
    ensures
        sp.class == c,
        valid_span(s, sp),
{
    lemma_class_matches_from_wf(s, c, 0);
    let k = choose|k: int| 0 <= k < class_matches(s, c).len() && class_matches(s, c)[k] == sp;
    assert(class_matches(s, c)[k] == sp);
}

/// Everything accepted by stage `p` belongs to a class of priority `<= p`.
proof fn lemma_stage_classes(s: Seq<char>, p: int, sp: SpanModel)
    requires
        0 <= p <= 5,
        stage_table(s, p).contains(sp),
    ensures
        1 <= sp.class.priority() <= p,
        valid_span(s, sp),
    decreases p,
{
    if p <= 0 {
        let k = choose|k: int| 0 <= k < stage_table(s, 0).len() && stage_table(s, 0)[k] == sp;
        assert(false);
    } else {
        lemma_add_matches_from(stage_table(s, p - 1), class_matches(s, class_of_priority(p)), sp);
        if stage_table(s, p - 1).contains(sp) {
            lemma_stage_classes(s, p - 1, sp);
        } else {
            lemma_class_matches_member(s, class_of_priority(p), sp);
        }
    }
}

/// Later stages only grow the table.
proof fn lemma_stage_mono(s: Seq<char>, p: int, q: int, sp: SpanModel)
    requires
        0 <= p <= q,
        stage_table(s, p).contains(sp),
    ensures
        stage_table(s, q).contains(sp),
    decreases q - p,
{
    if q > p {
        lemma_stage_mono(s, p, q - 1, sp);
        lemma_add_matches_mono(
            stage_table(s, q - 1),
            class_matches(s, class_of_priority(q)),
            sp,
        );
    }
}

/// A span of priority `<= p` accepted by stage `q >= p` was already accepted
/// by stage `p`: a stage only inserts candidates of its own class.
proof fn lemma_stage_descend(s: Seq<char>, p: int, q: int, sp: SpanModel)
    requires
        0 <= p <= q <= 5,
        stage_table(s, q).contains(sp),
        sp.class.priority() <= p,
    ensures
        stage_table(s, p).contains(sp),
    decreases q - p,
{
    if q > p {
        lemma_add_matches_from(stage_table(s, q - 1), class_matches(s, class_of_priority(q)), sp);
        if class_matches(s, class_of_priority(q)).contains(sp) {
            lemma_class_matches_member(s, class_of_priority(q), sp);
            assert(sp.class.priority() == q);
        }
        lemma_stage_descend(s, p, q - 1, sp);
    }
}

/// A candidate that stage `p` did not accept is never accepted later.
proof fn lemma_stage_not_added(s: Seq<char>, m: SpanModel, p: int, q: int)
    requires
        0 <= p <= q <= 5,
        !stage_table(s, p).contains(m),
        m.class.priority() <= p,
    ensures
        !stage_table(s, q).contains(m),
    decreases q - p,
{
    if q > p {
        lemma_stage_not_added(s, m, p, q - 1);
        if stage_table(s, q).contains(m) {
            lemma_add_matches_from(
                stage_table(s, q - 1),
                class_matches(s, class_of_priority(q)),
                m,
            );
            lemma_class_matches_member(s, class_of_priority(q), m);
            assert(m.class.priority() == q);
        }
    }
}

proof fn lemma_priority_range(c: TokenClass)
    ensures
        1 <= c.priority() <= 5,
        class_of_priority(c.priority()) == c,
{
}

/// Identity on guarded input: empty text and text over the length limit are
/// returned unchanged (as is text that already carries escape sequences).
pub proof fn lemma_highlight_guarded_identity(s: Seq<char>)
    requires
        s.len() == 0 || s.len() > HIGHLIGHT_LENGTH_LIMIT as int || contains_escape(s),
    ensures
        highlight_spec(s) == s,
{
}

/// Non-overlap: two distinct accepted spans never intersect.
pub proof fn lemma_accepted_spans_disjoint(s: Seq<char>, a: int, b: int)
    requires
        0 <= a < resolve_spec(s).len(),
        0 <= b < resolve_spec(s).len(),
        a != b,
    ensures
        !overlaps(resolve_spec(s)[a], resolve_spec(s)[b]),
{
    lemma_resolve_wf(s);
    let tbl = resolve_spec(s);
    if a < b {
        assert(tbl[a].end <= tbl[b].start);
        assert(valid_span(s, tbl[a]));
        assert(valid_span(s, tbl[b]));
    } else {
        assert(tbl[b].end <= tbl[a].start);
        assert(valid_span(s, tbl[a]));
        assert(valid_span(s, tbl[b]));
    }
}

/// Priority precedence: when a candidate of a lower-priority class overlaps
/// an accepted span of a higher-priority class, the candidate is rejected.
pub proof fn lemma_priority_precedence(s: Seq<char>, a: SpanModel, m: SpanModel)
    requires
        resolve_spec(s).contains(a),
        class_matches(s, m.class).contains(m),
        a.class.priority() < m.class.priority(),
        overlaps(a, m),
    ensures
        !resolve_spec(s).contains(m),
{
    lemma_resolve_is_stage(s);
    lemma_priority_range(a.class);
    lemma_priority_range(m.class);
    let pm = m.class.priority();
    lemma_stage_descend(s, pm - 1, 5, a);
    let before = stage_table(s, pm - 1);
    assert(!before.contains(m)) by {
        if before.contains(m) {
            lemma_stage_classes(s, pm - 1, m);
        }
    }
    assert(overlaps_any(before, m)) by {
        let k = choose|k: int| 0 <= k < before.len() && before[k] == a;
        assert(overlaps(before[k], m));
    }
    lemma_add_matches_reject(before, class_matches(s, m.class), m);
    assert(stage_table(s, pm) == add_matches(before, class_matches(s, m.class)));
    lemma_stage_not_added(s, m, pm, 5);
}

/// The other half of precedence: a candidate that intersects no accepted
/// span of a higher-priority class is always accepted.
pub proof fn lemma_no_conflict_accepted(s: Seq<char>, m: SpanModel)
    requires
        class_matches(s, m.class).contains(m),
        forall|x: int|
            0 <= x < resolve_spec(s).len() ==> ((#[trigger] resolve_spec(s)[x]).class.priority()
                < m.class.priority() ==> !overlaps(resolve_spec(s)[x], m)),
    ensures
        resolve_spec(s).contains(m),
{
    lemma_resolve_is_stage(s);
    lemma_priority_range(m.class);
    let pm = m.class.priority();
    let before = stage_table(s, pm - 1);
    let cm = class_matches(s, m.class);
    assert(!overlaps_any(before, m)) by {
        if overlaps_any(before, m) {
            let j = choose|j: int| 0 <= j < before.len() && overlaps(#[trigger] before[j], m);
            assert(before.contains(before[j]));
            lemma_stage_classes(s, pm - 1, before[j]);
            lemma_stage_mono(s, pm - 1, 5, before[j]);
            let x = choose|x: int|
                0 <= x < resolve_spec(s).len() && resolve_spec(s)[x] == before[j];
            assert(resolve_spec(s)[x].class.priority() < pm);
        }
    }
    let j = choose|j: int| 0 <= j < cm.len() && cm[j] == m;
    lemma_class_matches_from_wf(s, m.class, 0);
    assert forall|k: int| 0 <= k < j implies !overlaps(#[trigger] cm[k], m) by {
        assert(cm[k].end <= cm[j].start);
        assert(cm[k].start < cm[k].end);
    }
    lemma_add_matches_accepts(before, cm, j);
    assert(stage_table(s, pm) == add_matches(before, cm));
    lemma_stage_mono(s, pm, 5, m);
}

/// String literals have the highest priority: every string-literal match is
/// accepted.
pub proof fn lemma_string_matches_accepted(s: Seq<char>, j: int)
    requires
        0 <= j < class_matches(s, TokenClass::StrLit).len(),
    ensures
        resolve_spec(s).contains(class_matches(s, TokenClass::StrLit)[j]),
{
    lemma_resolve_is_stage(s);
    lemma_class_matches_from_wf(s, TokenClass::StrLit, 0);
    let ms = class_matches(s, TokenClass::StrLit);
    let empty = Seq::<SpanModel>::empty();
    assert(!overlaps_any(empty, ms[j])) by {
        if overlaps_any(empty, ms[j]) {
            let x = choose|x: int| 0 <= x < empty.len() && overlaps(#[trigger] empty[x], ms[j]);
        }
    }
    assert forall|k: int| 0 <= k < j implies !overlaps(#[trigger] ms[k], ms[j]) by {
        assert(ms[k].end <= ms[j].start);
    }
    lemma_add_matches_accepts(empty, ms, j);
    assert(stage_table(s, 0) == Seq::<SpanModel>::empty());
    assert(stage_table(s, 1) == add_matches(empty, ms));
    lemma_stage_mono(s, 1, 5, ms[j]);
}

/// Content preservation: for text that carries no escape sequences of its
/// own, stripping all escape sequences from the highlighted output yields
/// exactly the input.
pub proof fn lemma_highlight_preserves_content(s: Seq<char>)
    requires
        !contains_escape(s),
    ensures
        strip_escapes(highlight_spec(s)) == s,
{
    if s.len() == 0 || s.len() > HIGHLIGHT_LENGTH_LIMIT as int {
        assert forall|i: int| !escape_at(s, i) by {
            if 0 <= i && escape_at(s, i) {
                assert(contains_escape(s));
            }
        }
        lemma_strip_no_escape(s);
    } else {
        lemma_resolve_wf(s);
        let tbl = resolve_spec(s);
        if tbl.len() > 0 {
            assert(valid_span(s, tbl[0]));
        }
        lemma_strip_render(s, tbl, 0);
        assert(s.subrange(0, s.len() as int) =~= s);
    }
}

/// Rendering at least one span marks the output: it contains an escape
/// sequence, so a second highlighting pass leaves it alone.
proof fn lemma_render_contains_escape(s: Seq<char>, spans: Seq<SpanModel>, cursor: int)
    requires
        table_wf(s, spans),
        spans.len() > 0,
        0 <= cursor <= spans[0].start,
    ensures
        contains_escape(render_from(s, spans, cursor)),
{
    let sp = spans[0];
    assert(valid_span(s, sp));
    let a = s.subrange(cursor, sp.start);
    let t = s.subrange(sp.start, sp.end);
    let c = colorize(sp.class, t);
    let r = render_from(s, spans.drop_first(), sp.end);
    let o = render_from(s, spans, cursor);
    assert(o == a + c + r);
    lemma_prefix_shapes();
    let pfx = match sp.class {
        TokenClass::StrLit => prefix_string(),
        TokenClass::Number => prefix_number(),
        TokenClass::BoolWord => if bool_text_is_bold(t) {
            prefix_boolean()
        } else {
            prefix_nullish()
        },
        TokenClass::KeyLabel => prefix_key(),
        TokenClass::Bracket => prefix_bracket(),
    };
    let al = a.len() as int;
    let pl = pfx.len() as int;
    assert(pl <= c.len()) by {
        match sp.class {
            TokenClass::StrLit => assert(c == pfx + t + reset_chars()),
            TokenClass::Number => assert(c == pfx + t + reset_chars()),
            TokenClass::BoolWord => assert(c == pfx + t + reset_chars()),
            TokenClass::KeyLabel => assert(c == pfx + t.take(t.len() - 1) + reset_chars()
                + seq![':']),
            TokenClass::Bracket => assert(c == pfx + t + reset_chars()),
        }
    }
    assert forall|j: int| 0 <= j < pl implies o[al + j] == pfx[j] by {
        assert(o[al + j] == c[j]);
    }
    assert(escape_at(o, al)) by {
        assert(o[al] == pfx[0]);
        assert(o[al + 1] == pfx[1]);
        let k = al + pl - 1;
        assert(o[k] == pfx[pl - 1]);
        assert(al + 2 <= k < o.len() && is_alpha_char(o[k]) && (forall|m: int|
            al + 2 <= m < k ==> is_csi_param_char(#[trigger] o[m]))) by {
            assert forall|m: int| al + 2 <= m < k implies is_csi_param_char(#[trigger] o[m]) by {
                assert(o[m] == pfx[m - al]);
            }
        }
    }
}

/// Idempotence: highlighting already-highlighted text changes nothing, so a
/// second pass is a no-op.
pub proof fn lemma_highlight_idempotent(s: Seq<char>)
    ensures
        highlight_spec(highlight_spec(s)) == highlight_spec(s),
{
    if s.len() == 0 || s.len() > HIGHLIGHT_LENGTH_LIMIT as int || contains_escape(s) {
    } else {
        lemma_resolve_wf(s);
        let tbl = resolve_spec(s);
        let o = highlight_spec(s);
        if tbl.len() == 0 {
            assert(o == s.subrange(0, s.len() as int));
            assert(o =~= s);
        } else {
            assert(valid_span(s, tbl[0]));
            lemma_render_contains_escape(s, tbl, 0);
        }
    }
}

} // verus!
