//! Log levels, the process-wide verbosity gate, and the colored fragments
//! of a log line's pretext (category tag, clock, dimmed caller info).

use vstd::prelude::*;

use colored::Colorize;

use crate::tokens::is_digit_char;

verus! {

/// The five verbosity ranks, from most severe to most verbose.
#[derive(Debug, Clone, Copy, PartialEq, Eq, PartialOrd, Ord, Structural)]
pub enum LogLevel {
    Critical,
    Error,
    Warn,
    Info,
    Debug,
}

/// The numeric rank of a level: 1 is the most severe, 5 the most verbose.
pub open spec fn level_rank(l: LogLevel) -> u8 {
    match l {
        LogLevel::Critical => 1,
        LogLevel::Error => 2,
        LogLevel::Warn => 3,
        LogLevel::Info => 4,
        LogLevel::Debug => 5,
    }
}

/// Case-insensitive match of one character against its lowercase reference.
pub open spec fn ci_eq(c: char, l: char) -> bool {
    c == l || ('A' <= c && c <= 'Z' && c as int + 32 == l as int)
}

/// `s` equals the lowercase word `w` up to ASCII case.
pub open spec fn name_matches(s: Seq<char>, w: Seq<char>) -> bool {
    s.len() == w.len() && forall|k: int| 0 <= k < s.len() ==> ci_eq(s[k], #[trigger] w[k])
}

/// The level denoted by a name, compared case-insensitively; `None` for an
/// unrecognized name.
pub open spec fn parse_level(s: Seq<char>) -> Option<LogLevel> {
    if name_matches(s, "debug"@) {
        Some(LogLevel::Debug)
    } else if name_matches(s, "info"@) {
        Some(LogLevel::Info)
    } else if name_matches(s, "warn"@) || name_matches(s, "warning"@) {
        Some(LogLevel::Warn)
    } else if name_matches(s, "error"@) {
        Some(LogLevel::Error)
    } else if name_matches(s, "critical"@) || name_matches(s, "crit"@) {
        Some(LogLevel::Critical)
    } else {
        None
    }
}

fn ci_eq_char(c: char, l: char) -> (r: bool)
    ensures
        r == ci_eq(c, l),
{
    c == l || ('A' <= c && c <= 'Z' && c as u32 + 32 == l as u32)
}

/// Does `s` equal the lowercase word `w` up to ASCII case?
pub fn ci_match(s: &str, w: &str) -> (r: bool)
    ensures
        r == name_matches(s@, w@),
{
    let n = s.unicode_len();
    let wn = w.unicode_len();
    if n != wn {
        return false;
    }
    let mut i: usize = 0;
    while i < n
        invariant
            i <= n,
            n == s@.len(),
            n == w@.len(),
            forall|k: int| 0 <= k < i ==> ci_eq(s@[k], #[trigger] w@[k]),
        decreases n - i,
    {
        if !ci_eq_char(s.get_char(i), w.get_char(i)) {
            return false;
        }
        i = i + 1;
    }
    true
}

impl LogLevel {
    /// The level of a numeric rank, for ranks 1 through 5.
    pub fn from_u8(level: u8) -> (r: Option<LogLevel>)
        ensures
            r is Some <==> 1 <= level <= 5,
            r is Some ==> level_rank(r->Some_0) == level,
    {
        match level {
            1u8 => Some(LogLevel::Critical),
            2u8 => Some(LogLevel::Error),
            3u8 => Some(LogLevel::Warn),
            4u8 => Some(LogLevel::Info),
            5u8 => Some(LogLevel::Debug),
            _ => None,
        }
    }

    /// The numeric rank of this level.
    pub fn as_u8(self) -> (r: u8)
        ensures
            r == level_rank(self),
    {
        match self {
            LogLevel::Critical => 1,
            LogLevel::Error => 2,
            LogLevel::Warn => 3,
            LogLevel::Info => 4,
            LogLevel::Debug => 5,
        }
    }

    /// The lowercase name of this level.
    pub fn as_str(self) -> (r: &'static str)
        ensures
            parse_level(r@) == Some(self),
    {
        proof {
            reveal_strlit("debug");
            reveal_strlit("info");
            reveal_strlit("warn");
            reveal_strlit("warning");
            reveal_strlit("error");
            reveal_strlit("critical");
            reveal_strlit("crit");
        }
        assert(name_matches("debug"@, "debug"@)) by {
            assert forall|k: int| 0 <= k < 5 implies ci_eq("debug"@[k], #[trigger] "debug"@[k]) by {
            }
        }
        assert(name_matches("info"@, "info"@)) by {
            assert forall|k: int| 0 <= k < 4 implies ci_eq("info"@[k], #[trigger] "info"@[k]) by {}
        }
        assert(name_matches("warn"@, "warn"@)) by {
            assert forall|k: int| 0 <= k < 4 implies ci_eq("warn"@[k], #[trigger] "warn"@[k]) by {}
        }
        assert(name_matches("error"@, "error"@)) by {
            assert forall|k: int| 0 <= k < 5 implies ci_eq("error"@[k], #[trigger] "error"@[k]) by {
            }
        }
        assert(name_matches("critical"@, "critical"@)) by {
            assert forall|k: int| 0 <= k < 8 implies ci_eq(
                "critical"@[k],
                #[trigger] "critical"@[k],
            ) by {}
        }
        assert(!name_matches("warn"@, "info"@)) by {
            assert(!ci_eq("warn"@[0], "info"@[0]));
        }
        assert(!name_matches("error"@, "debug"@)) by {
            assert(!ci_eq("error"@[0], "debug"@[0]));
        }
        match self {
            LogLevel::Debug => "debug",
            LogLevel::Info => "info",
            LogLevel::Warn => "warn",
            LogLevel::Error => "error",
            LogLevel::Critical => "critical",
        }
    }

    /// The level named by `name`, compared case-insensitively.
    pub fn from_name(name: &str) -> (r: Option<LogLevel>)
        ensures
            r == parse_level(name@),
    {
        if ci_match(name, "debug") {
            Some(LogLevel::Debug)
        } else if ci_match(name, "info") {
            Some(LogLevel::Info)
        } else if ci_match(name, "warn") || ci_match(name, "warning") {
            Some(LogLevel::Warn)
        } else if ci_match(name, "error") {
            Some(LogLevel::Error)
        } else if ci_match(name, "critical") || ci_match(name, "crit") {
            Some(LogLevel::Critical)
        } else {
            None
        }
    }
}

/// The process-wide verbosity gate: a single mutable rank, read by every
/// logging call, written only by explicit level changes.  The default is
/// the most verbose rank.
pub struct LoggerConfig {
    pub level: u8,
}

impl LoggerConfig {
    /// A fresh gate at the most verbose rank.
    pub fn new() -> (r: LoggerConfig)
        ensures
            r.level == 5,
    {
        LoggerConfig { level: 5 }
    }

    /// The current level; an out-of-range stored rank reads as `Info`.
    pub fn get_logging_level(&self) -> (r: LogLevel)
        ensures
            1 <= self.level <= 5 ==> level_rank(r) == self.level,
            !(1 <= self.level <= 5) ==> r == LogLevel::Info,
    {
        match LogLevel::from_u8(self.level) {
            Some(l) => l,
            None => LogLevel::Info,
        }
    }

    /// Set the current level.
    pub fn set_logging_level(&mut self, level: LogLevel)
        ensures
            final(self).level == level_rank(level),
    {
        self.level = level.as_u8();
    }

    /// Set the current level by name; an unrecognized name is reported and
    /// leaves the level unchanged.
    pub fn set_logging_level_from_str(&mut self, level: &str) -> (r: Result<(), ()>)
        ensures
            parse_level(level@) is Some ==> r is Ok && final(self).level == level_rank(
                parse_level(level@)->Some_0,
            ),
            parse_level(level@) is None ==> r is Err && final(self).level == old(self).level,
    {
        match LogLevel::from_name(level) {
            Some(l) => {
                self.set_logging_level(l);
                Ok(())
            },
            None => Err(()),
        }
    }

    /// Should a line at `level` be emitted under the current gate?
    pub fn should_log(&self, level: LogLevel) -> (r: bool)
        ensures
            r == (level_rank(level) <= self.level),
    {
        level.as_u8() <= self.level
    }
}

impl Default for LoggerConfig {
    fn default() -> (r: LoggerConfig)
        ensures
            r.level == 5,
    {
        LoggerConfig::new()
    }
}

impl View for LoggerConfig {
    type V = u8;

    open spec fn view(&self) -> u8 {
        self.level
    }
}

pub open spec fn style_reset() -> Seq<char> {
    seq!['\x1b', '[', '0', 'm']
}

pub open spec fn style_bold_bright_blue() -> Seq<char> {
    seq!['\x1b', '[', '1', ';', '9', '4', 'm']
}

pub open spec fn style_bold_bright_green() -> Seq<char> {
    seq!['\x1b', '[', '1', ';', '9', '2', 'm']
}

pub open spec fn style_bold_bright_yellow() -> Seq<char> {
    seq!['\x1b', '[', '1', ';', '9', '3', 'm']
}

pub open spec fn style_bold_bright_red() -> Seq<char> {
    seq!['\x1b', '[', '1', ';', '9', '1', 'm']
}

pub open spec fn style_bold_bright_magenta() -> Seq<char> {
    seq!['\x1b', '[', '1', ';', '9', '5', 'm']
}

/// Whatever colored returns for a styled string: the text unchanged (colors
/// off) or the text wrapped in the style prefix and the reset (colors on).
pub open spec fn styled_output(r: Seq<char>, style: Seq<char>, text: Seq<char>) -> bool {
    r == text || r == style + text + style_reset()
}

/// No escape control byte in `s` (so colored passes the text through as is).
pub open spec fn escape_free(s: Seq<char>) -> bool {
    forall|i: int| 0 <= i < s.len() ==> s[i] != '\x1b'
}

/// Relies on colored's `Colorize::bright_blue` and `bold`: with colors
/// enabled the result is the bold-bright-blue prefix, the text, and the
/// reset; with colors disabled (NO_COLOR, a non-terminal stream) it is the
/// text unchanged.
#[verifier::external_body]
fn paint_bold_bright_blue(text: &str) -> (r: String)
    requires
        escape_free(text@),
    ensures
        styled_output(r@, style_bold_bright_blue(), text@),
{
    text.bright_blue().bold().to_string()
}

/// Relies on colored's `Colorize::bright_green` and `bold`, as above.
#[verifier::external_body]
fn paint_bold_bright_green(text: &str) -> (r: String)
    requires
        escape_free(text@),
    ensures
        styled_output(r@, style_bold_bright_green(), text@),
{
    text.bright_green().bold().to_string()
}

/// Relies on colored's `Colorize::bright_yellow` and `bold`, as above.
#[verifier::external_body]
fn paint_bold_bright_yellow(text: &str) -> (r: String)
    requires
        escape_free(text@),
    ensures
        styled_output(r@, style_bold_bright_yellow(), text@),
{
    text.bright_yellow().bold().to_string()
}

/// Relies on colored's `Colorize::bright_red` and `bold`, as above.
#[verifier::external_body]
fn paint_bold_bright_red(text: &str) -> (r: String)
    requires
        escape_free(text@),
    ensures
        styled_output(r@, style_bold_bright_red(), text@),
{
    text.bright_red().bold().to_string()
}

/// Relies on colored's `Colorize::bright_magenta` and `bold`, as above.
#[verifier::external_body]
fn paint_bold_bright_magenta(text: &str) -> (r: String)
    requires
        escape_free(text@),
    ensures
        styled_output(r@, style_bold_bright_magenta(), text@),
{
    text.bright_magenta().bold().to_string()
}

/// Relies on colored's `Colorize::normal`: a plain colored string renders
/// as the text itself, with or without colors enabled.
#[verifier::external_body]
fn paint_normal(text: &str) -> (r: String)
    ensures
        r@ == text@,
{
    text.normal().to_string()
}

pub(crate) fn str_equal(a: &str, b: &str) -> (r: bool)
    ensures
        r == (a@ == b@),
{
    let n = a.unicode_len();
    if n != b.unicode_len() {
        return false;
    }
    let mut i: usize = 0;
    while i < n
        invariant
            i <= n,
            n == a@.len(),
            n == b@.len(),
            forall|k: int| 0 <= k < i ==> a@[k] == #[trigger] b@[k],
        decreases n - i,
    {
        if a.get_char(i) != b.get_char(i) {
            return false;
        }
        i = i + 1;
    }
    assert(a@ =~= b@);
    true
}

/// The fixed tag shown for a level name; an unknown name is its own tag.
pub open spec fn category_label(level: Seq<char>) -> Seq<char> {
    if level == "debug"@ {
        "DEBG =>"@
    } else if level == "info"@ {
        "INFO =>"@
    } else if level == "warn"@ {
        "WARN =>"@
    } else if level == "error"@ {
        "EROR =>"@
    } else if level == "critical"@ {
        "CRIT =>"@
    } else {
        level
    }
}

/// The style each known level name is painted with.
pub open spec fn category_style(level: Seq<char>) -> Seq<char> {
    if level == "debug"@ {
        style_bold_bright_blue()
    } else if level == "info"@ {
        style_bold_bright_green()
    } else if level == "warn"@ {
        style_bold_bright_yellow()
    } else if level == "error"@ {
        style_bold_bright_red()
    } else {
        style_bold_bright_magenta()
    }
}

/// The colored category tag of a level name: the tag of a known name is
/// painted with the level's style (when colors are on), an unknown name
/// passes through unstyled.
pub fn category(level: &str) -> (r: String)
    ensures
        styled_output(r@, category_style(level@), category_label(level@)),
{
    proof {
        reveal_strlit("debug");
        reveal_strlit("info");
        reveal_strlit("warn");
        reveal_strlit("error");
        reveal_strlit("critical");
        reveal_strlit("DEBG =>");
        reveal_strlit("INFO =>");
        reveal_strlit("WARN =>");
        reveal_strlit("EROR =>");
        reveal_strlit("CRIT =>");
    }
    if str_equal(level, "debug") {
        paint_bold_bright_blue("DEBG =>")
    } else if str_equal(level, "info") {
        paint_bold_bright_green("INFO =>")
    } else if str_equal(level, "warn") {
        paint_bold_bright_yellow("WARN =>")
    } else if str_equal(level, "error") {
        paint_bold_bright_red("EROR =>")
    } else if str_equal(level, "critical") {
        paint_bold_bright_magenta("CRIT =>")
    } else {
        paint_normal(level)
    }
}

/// Relies on chrono's `Local::now` formatted with `%H:%M:%S`: eight
/// characters, two-digit hour, minute and second separated by colons.
#[verifier::external_body]
fn local_time_hms() -> (r: String)
    ensures
        r@.len() == 8,
        r@[2] == ':' && r@[5] == ':',
        is_digit_char(r@[0]) && is_digit_char(r@[1]) && is_digit_char(r@[3]) && is_digit_char(
            r@[4],
        ) && is_digit_char(r@[6]) && is_digit_char(r@[7]),
{
    chrono::Local::now().format("%H:%M:%S").to_string()
}

/// The current wall-clock time as `HH:MM:SS`, wrapped dim and bold.
pub fn time() -> (r: String)
    ensures
        r@.len() == 19,
        r@.subrange(0, 7) == seq!['\x1b', '[', '9', '0', ';', '1', 'm'],
        r@.subrange(15, 19) == style_reset(),
        r@[9] == ':' && r@[12] == ':',
        is_digit_char(r@[7]) && is_digit_char(r@[8]) && is_digit_char(r@[10]) && is_digit_char(
            r@[11],
        ) && is_digit_char(r@[13]) && is_digit_char(r@[14]),
{
    proof {
        reveal_strlit("\x1b[90;1m");
        reveal_strlit("\x1b[0m");
    }
    let hms = local_time_hms();
    let mut out = String::new();
    out.append("\x1b[90;1m");
    out.append(hms.as_str());
    out.append("\x1b[0m");
    assert(out@.subrange(0, 7) =~= seq!['\x1b', '[', '9', '0', ';', '1', 'm']);
    assert(out@.subrange(15, 19) =~= style_reset());
    out
}

/// Wraps `text` in the dim escape sequence.
pub fn dim(text: &str) -> (r: String)
    ensures
        r@ == "\x1b[2m"@ + text@ + "\x1b[0m"@,
{
    let mut out = String::new();
    out.append("\x1b[2m");
    out.append(text);
    out.append("\x1b[0m");
    assert(out@ == "\x1b[2m"@ + text@ + "\x1b[0m"@);
    out
}

/// The last separator of a path: the file name after the final `/`, or
/// after the final `\` when no `/` occurs; the whole path when neither does.
pub open spec fn file_name_start(s: Seq<char>, sep: char) -> int
    decreases s.len(),
{
    if s.len() == 0 {
        0
    } else if s[s.len() - 1] == sep {
        s.len() as int
    } else {
        file_name_start(s.take(s.len() - 1), sep)
    }
}

/// The short file name of a caller's path: what follows the last `/`, or
/// the last `\` in a path without slashes.
pub open spec fn short_name_of(s: Seq<char>) -> Seq<char> {
    if exists|i: int| 0 <= i < s.len() && s[i] == '/' {
        s.subrange(file_name_start(s, '/'), s.len() as int)
    } else {
        s.subrange(file_name_start(s, '\\'), s.len() as int)
    }
}

fn find_name_start(text: &str, sep: char) -> (r: usize)
    ensures
        r == file_name_start(text@, sep),
{
    let n = text.unicode_len();
    assert(text@.take(n as int) =~= text@);
    let mut j: usize = n;
    while j > 0
        invariant
            j <= n,
            n == text@.len(),
            file_name_start(text@, sep) == file_name_start(text@.take(j as int), sep),
        decreases j,
    {
        proof {
            assert(text@.take(j as int).take(j - 1) =~= text@.take(j - 1));
        }
        if text.get_char(j - 1) == sep {
            assert(text@.take(j as int)[j - 1] == text@[j - 1]);
            return j;
        }
        assert(text@.take(j as int)[j - 1] == text@[j - 1]);
        j = j - 1;
    }
    assert(text@.take(0) =~= Seq::<char>::empty());
    0
}

/// The file name after the last path separator, as the log pretext shows
/// callers: after the last `/`, or the last `\` if no slash occurs.
pub fn short_file_name(path: &str) -> (r: String)
    ensures
        r@ == short_name_of(path@),
{
    let n = path.unicode_len();
    let slash = find_name_start(path, '/');
    let ghost has_slash = exists|i: int| 0 <= i < path@.len() && path@[i] == '/';
    proof {
        lemma_file_name_start_bounds(path@, '/');
        lemma_file_name_start_bounds(path@, '\\');
        if slash > 0 {
            lemma_file_name_start_sep(path@, '/');
            assert(path@[slash - 1] == '/');
        } else {
            lemma_file_name_start_none(path@, '/');
        }
    }
    if slash > 0 {
        return path.substring_char(slash, n).to_owned();
    }
    let back = find_name_start(path, '\\');
    path.substring_char(back, n).to_owned()
}

proof fn lemma_file_name_start_bounds(s: Seq<char>, sep: char)
    ensures
        0 <= file_name_start(s, sep) <= s.len(),
    decreases s.len(),
{
    if s.len() > 0 && s[s.len() - 1] != sep {
        lemma_file_name_start_bounds(s.take(s.len() - 1), sep);
        assert(s.take(s.len() - 1).len() == s.len() - 1);
    }
}

proof fn lemma_file_name_start_sep(s: Seq<char>, sep: char)
    requires
        file_name_start(s, sep) > 0,
    ensures
        s[file_name_start(s, sep) - 1] == sep,
        exists|i: int| 0 <= i < s.len() && s[i] == sep,
    decreases s.len(),
{
    if s.len() > 0 {
        if s[s.len() - 1] == sep {
        } else {
            let t = s.take(s.len() - 1);
            lemma_file_name_start_bounds(t, sep);
            lemma_file_name_start_sep(t, sep);
            let p = file_name_start(t, sep);
            assert(t[p - 1] == s[p - 1]);
            let i = choose|i: int| 0 <= i < t.len() && t[i] == sep;
            assert(s[i] == sep);
        }
    }
}

proof fn lemma_file_name_start_none(s: Seq<char>, sep: char)
    requires
        file_name_start(s, sep) == 0,
    ensures
        forall|i: int| 0 <= i < s.len() ==> s[i] != sep,
    decreases s.len(),
{
    if s.len() > 0 {
        if s[s.len() - 1] == sep {
        } else {
            let t = s.take(s.len() - 1);
            lemma_file_name_start_none(t, sep);
            assert forall|i: int| 0 <= i < s.len() implies s[i] != sep by {
                if i < s.len() - 1 {
                    assert(t[i] == s[i]);
                }
            }
        }
    }
}

} // verus!
