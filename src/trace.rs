//! The trace-line grammar and the choice of the path argument.
//!
//! A line has the shape `[pid ]name(arg, arg, ...) = code trailing`. The first
//! place in the line where that shape starts is taken; anything before it (a
//! process id) and after the code is ignored.
use vstd::prelude::*;

use crate::text::{chars_of, is_lit, slice_text, split_on, starts_with_lit};

verus! {

/// Whether `c` may appear in a syscall name: an ASCII letter, digit or
/// underscore. Syscall names are ASCII, so letters and digits of other scripts
/// are not taken as part of a name.
pub open spec fn is_word_char(c: char) -> bool {
    ('a' <= c && c <= 'z') || ('A' <= c && c <= 'Z') || ('0' <= c && c <= '9') || c == '_'
}

/// Whether `c` is a white-space character (Unicode's `White_Space` property).
pub open spec fn is_space(c: char) -> bool {
    c == ' ' || c == '\t' || c == '\n' || c == '\x0B' || c == '\x0C' || c == '\r' || c
        == '\u{85}' || c == '\u{A0}' || c == '\u{1680}' || ('\u{2000}' <= c && c <= '\u{200A}')
        || c == '\u{2028}' || c == '\u{2029}' || c == '\u{202F}' || c == '\u{205F}' || c
        == '\u{3000}'
}

/// First index at or after `i` that holds `c`, or the length when none does.
pub open spec fn find_from(s: Seq<char>, i: int, c: char) -> int
    decreases s.len() - i,
{
    if i < 0 || i >= s.len() {
        s.len() as int
    } else if s[i] == c {
        i
    } else {
        find_from(s, i + 1, c)
    }
}

/// First index at or after `i` that holds no white space, or the length.
pub open spec fn space_end(s: Seq<char>, i: int) -> int
    decreases s.len() - i,
{
    if i < 0 || i >= s.len() {
        s.len() as int
    } else if !is_space(s[i]) {
        i
    } else {
        space_end(s, i + 1)
    }
}

/// First index at or after `i` that holds white space, or the length.
pub open spec fn token_end(s: Seq<char>, i: int) -> int
    decreases s.len() - i,
{
    if i < 0 || i >= s.len() {
        s.len() as int
    } else if is_space(s[i]) {
        i
    } else {
        token_end(s, i + 1)
    }
}

/// Start of the run of name characters that ends at `p`.
pub open spec fn word_start(s: Seq<char>, p: int) -> int
    decreases p,
{
    if 0 < p <= s.len() && is_word_char(s[p - 1]) {
        word_start(s, p - 1)
    } else {
        p
    }
}

/// Position of the `)` that closes the argument list opened at `p`.
pub open spec fn close_at(s: Seq<char>, p: int) -> int {
    find_from(s, p + 1, ')')
}

/// Position of the `=` that follows the argument list opened at `p`.
pub open spec fn equals_at(s: Seq<char>, p: int) -> int {
    space_end(s, close_at(s, p) + 1)
}

/// Whether the call shape starts with an opening parenthesis at `p`: a name
/// right before it, a non-empty argument list up to the first `)`, white space,
/// `= ` and a non-empty return-code token.
pub open spec fn shape_at(s: Seq<char>, p: int) -> bool {
    let q = close_at(s, p);
    let e = equals_at(s, p);
    &&& 0 < p < s.len()
    &&& s[p] == '('
    &&& is_word_char(s[p - 1])
    &&& p + 1 < q < s.len()
    &&& q + 1 < e
    &&& e + 2 < s.len()
    &&& s[e] == '='
    &&& s[e + 1] == ' '
    &&& !is_space(s[e + 2])
}

/// The first position at or after `p` where the call shape starts, or the length.
pub open spec fn first_shape(s: Seq<char>, p: int) -> int
    decreases s.len() - p,
{
    if p < 0 || p >= s.len() {
        s.len() as int
    } else if shape_at(s, p) {
        p
    } else {
        first_shape(s, p + 1)
    }
}

proof fn lemma_first_shape(s: Seq<char>, p: int)
    ensures
        first_shape(s, p) < s.len() ==> shape_at(s, first_shape(s, p)),
    decreases s.len() - p,
{
    if 0 <= p < s.len() && !shape_at(s, p) {
        lemma_first_shape(s, p + 1);
    }
}

/// Whether the line has the call shape anywhere.
pub open spec fn has_shape(s: Seq<char>) -> bool {
    first_shape(s, 0) < s.len()
}

/// The syscall name of a line that has the call shape.
pub open spec fn name_text(s: Seq<char>) -> Seq<char> {
    let p = first_shape(s, 0);
    s.subrange(word_start(s, p), p)
}

/// The raw argument list (between the parentheses) of a line that has the call shape.
pub open spec fn args_text(s: Seq<char>) -> Seq<char> {
    let p = first_shape(s, 0);
    s.subrange(p + 1, close_at(s, p))
}

/// The return-code token of a line that has the call shape.
pub open spec fn code_text(s: Seq<char>) -> Seq<char> {
    let p = first_shape(s, 0);
    let e = equals_at(s, p);
    s.subrange(e + 2, token_end(s, e + 2))
}

/// End of the run of decimal digits that starts at `i`.
pub open spec fn digits_end(s: Seq<char>, i: int) -> int
    decreases s.len() - i,
{
    if i < 0 || i >= s.len() {
        s.len() as int
    } else if is_digit(s[i]) {
        digits_end(s, i + 1)
    } else {
        i
    }
}

/// The process id in front of a line of the call shape: the line starts with
/// decimal digits, and white space alone stands between them and the name.
pub open spec fn pid_of(s: Seq<char>) -> Option<int> {
    let w = word_start(s, first_shape(s, 0));
    let d = digits_end(s, 0);
    if 0 < d < w && space_end(s, d) == w {
        code_value(s.subrange(0, d))
    } else {
        None
    }
}

fn skip_digits(s: &Vec<char>) -> (r: usize)
    ensures
        r == digits_end(s@, 0),
{
    let mut j: usize = 0;
    while j < s.len() && '0' <= s[j] && s[j] <= '9'
        invariant
            j <= s@.len(),
            digits_end(s@, 0) == digits_end(s@, j as int),
        decreases s@.len() - j,
    {
        j = j + 1;
    }
    j
}

fn find_char(s: &Vec<char>, i: usize, c: char) -> (r: usize)
    requires
        i <= s@.len(),
    ensures
        r == find_from(s@, i as int, c),
{
    let mut j = i;
    while j < s.len() && s[j] != c
        invariant
            i <= j <= s@.len(),
            find_from(s@, i as int, c) == find_from(s@, j as int, c),
        decreases s@.len() - j,
    {
        j = j + 1;
    }
    j
}

/// Whether `c` is white space, as `is_space` says.
pub fn space_char(c: char) -> (r: bool)
    ensures
        r == is_space(c),
{
    c == ' ' || c == '\t' || c == '\n' || c == '\x0B' || c == '\x0C' || c == '\r' || c
        == '\u{85}' || c == '\u{A0}' || c == '\u{1680}' || ('\u{2000}' <= c && c <= '\u{200A}')
        || c == '\u{2028}' || c == '\u{2029}' || c == '\u{202F}' || c == '\u{205F}' || c
        == '\u{3000}'
}

/// Whether `c` may appear in a syscall name, as `is_word_char` says.
pub fn word_char(c: char) -> (r: bool)
    ensures
        r == is_word_char(c),
{
    ('a' <= c && c <= 'z') || ('A' <= c && c <= 'Z') || ('0' <= c && c <= '9') || c == '_'
}

fn skip_spaces(s: &Vec<char>, i: usize) -> (r: usize)
    requires
        i <= s@.len(),
    ensures
        r == space_end(s@, i as int),
{
    let mut j = i;
    while j < s.len() && space_char(s[j])
        invariant
            i <= j <= s@.len(),
            space_end(s@, i as int) == space_end(s@, j as int),
        decreases s@.len() - j,
    {
        j = j + 1;
    }
    j
}

fn skip_token(s: &Vec<char>, i: usize) -> (r: usize)
    requires
        i <= s@.len(),
    ensures
        r == token_end(s@, i as int),
        i <= r <= s@.len(),
{
    let mut j = i;
    while j < s.len() && !space_char(s[j])
        invariant
            i <= j <= s@.len(),
            token_end(s@, i as int) == token_end(s@, j as int),
        decreases s@.len() - j,
    {
        j = j + 1;
    }
    j
}

fn name_start(s: &Vec<char>, p: usize) -> (r: usize)
    requires
        p <= s@.len(),
    ensures
        r == word_start(s@, p as int),
        r <= p,
{
    let mut j = p;
    while j > 0 && word_char(s[j - 1])
        invariant
            j <= p <= s@.len(),
            word_start(s@, p as int) == word_start(s@, j as int),
        decreases j,
    {
        j = j - 1;
    }
    j
}

fn shape_starts_at(s: &Vec<char>, p: usize) -> (r: bool)
    requires
        p < s@.len(),
    ensures
        r == shape_at(s@, p as int),
{
    let n = s.len();
    if p == 0 || s[p] != '(' || !word_char(s[p - 1]) {
        return false;
    }
    let q = find_char(s, p + 1, ')');
    if !(p + 1 < q && q < n) {
        return false;
    }
    let e = skip_spaces(s, q + 1);
    if !(q + 1 < e && e < n && n - e > 2) {
        return false;
    }
    s[e] == '=' && s[e + 1] == ' ' && !space_char(s[e + 2])
}

fn first_shape_exec(s: &Vec<char>) -> (r: usize)
    ensures
        r == first_shape(s@, 0),
{
    let mut p: usize = 0;
    while p < s.len() && !shape_starts_at(s, p)
        invariant
            p <= s@.len(),
            first_shape(s@, 0) == first_shape(s@, p as int),
        decreases s@.len() - p,
    {
        p = p + 1;
    }
    p
}

/// Whether `c` is stripped from both ends of an argument: a double quote or a space.
pub open spec fn is_arg_pad(c: char) -> bool {
    c == '"' || c == ' '
}

/// `s` without its leading quotes and spaces.
pub open spec fn trim_front(s: Seq<char>) -> Seq<char>
    decreases s.len(),
{
    if s.len() > 0 && is_arg_pad(s[0]) {
        trim_front(s.drop_first())
    } else {
        s
    }
}

/// `s` without its trailing quotes and spaces.
pub open spec fn trim_back(s: Seq<char>) -> Seq<char>
    decreases s.len(),
{
    if s.len() > 0 && is_arg_pad(s.last()) {
        trim_back(s.drop_last())
    } else {
        s
    }
}

/// One raw argument with the quotes and spaces around it removed.
pub open spec fn trim_arg(s: Seq<char>) -> Seq<char> {
    trim_back(trim_front(s))
}

/// The arguments of a raw argument list: split on every comma, each piece trimmed.
/// A comma inside a quoted argument splits it too.
pub open spec fn split_args(s: Seq<char>) -> Seq<Seq<char>> {
    split_on(s, ',').map_values(|a: Seq<char>| trim_arg(a))
}

/// Whether `c` is an ASCII decimal digit.
pub open spec fn is_digit(c: char) -> bool {
    '0' <= c && c <= '9'
}

/// The value of a string of decimal digits.
pub open spec fn digits_value(s: Seq<char>) -> int
    decreases s.len(),
{
    if s.len() == 0 {
        0
    } else {
        digits_value(s.drop_last()) * 10 + (s.last() as int - '0' as int)
    }
}

/// The digits of a return-code token, after an optional sign.
pub open spec fn code_digits(s: Seq<char>) -> Seq<char> {
    if s.len() > 0 && (s[0] == '-' || s[0] == '+') {
        s.drop_first()
    } else {
        s
    }
}

/// The signed integer that a return-code token denotes, if it denotes one that
/// fits in 64 bits: an optional `+` or `-`, then one or more decimal digits.
pub open spec fn code_value(s: Seq<char>) -> Option<int> {
    let d = code_digits(s);
    let v = if s.len() > 0 && s[0] == '-' {
        -digits_value(d)
    } else {
        digits_value(d)
    };
    if d.len() > 0 && (forall|i: int| 0 <= i < d.len() ==> is_digit(#[trigger] d[i]))
        && i64::MIN <= v <= i64::MAX {
        Some(v)
    } else {
        None
    }
}

fn trim_range(s: &Vec<char>, lo: usize, hi: usize) -> (r: (usize, usize))
    requires
        lo <= hi <= s@.len(),
    ensures
        lo <= r.0 <= r.1 <= hi,
        s@.subrange(r.0 as int, r.1 as int) == trim_arg(s@.subrange(lo as int, hi as int)),
{
    let mut a = lo;
    while a < hi && (s[a] == '"' || s[a] == ' ')
        invariant
            lo <= a <= hi <= s@.len(),
            trim_front(s@.subrange(lo as int, hi as int)) == trim_front(
                s@.subrange(a as int, hi as int),
            ),
        decreases hi - a,
    {
        assert(s@.subrange(a as int, hi as int).drop_first() =~= s@.subrange(
            a + 1,
            hi as int,
        ));
        a = a + 1;
    }
    let mut b = hi;
    while b > a && (s[b - 1] == '"' || s[b - 1] == ' ')
        invariant
            lo <= a <= b <= hi <= s@.len(),
            trim_front(s@.subrange(lo as int, hi as int)) == s@.subrange(a as int, hi as int),
            trim_back(s@.subrange(a as int, hi as int)) == trim_back(
                s@.subrange(a as int, b as int),
            ),
        decreases b - a,
    {
        assert(s@.subrange(a as int, b as int).drop_last() =~= s@.subrange(
            a as int,
            b - 1,
        ));
        b = b - 1;
    }
    (a, b)
}

fn split_range(line: &str, s: &Vec<char>, lo: usize, hi: usize) -> (r: Vec<String>)
    requires
        s@ == line@,
        lo <= hi <= s@.len(),
    ensures
        r@.map_values(|a: String| a@) == split_args(s@.subrange(lo as int, hi as int)),
{
    let mut pieces: Vec<String> = Vec::new();
    let mut start = lo;
    let mut i = lo;
    while i < hi
        invariant
            s@ == line@,
            lo <= start <= i <= hi <= s@.len(),
            split_on(s@.subrange(lo as int, i as int), ',').len() == pieces@.len() + 1,
            forall|k: int|
                0 <= k < pieces@.len() ==> #[trigger] pieces@[k]@ == trim_arg(
                    split_on(s@.subrange(lo as int, i as int), ',')[k],
                ),
            split_on(s@.subrange(lo as int, i as int), ',').last() == s@.subrange(
                start as int,
                i as int,
            ),
        decreases hi - i,
    {
        let ghost before = s@.subrange(lo as int, i as int);
        let ghost after = s@.subrange(lo as int, i + 1);
        assert(after.drop_last() =~= before);
        if s[i] == ',' {
            let (a, b) = trim_range(s, start, i);
            pieces.push(slice_text(line, a, b));
            start = i + 1;
            assert(s@.subrange(start as int, i + 1) =~= Seq::<char>::empty());
        } else {
            assert(s@.subrange(start as int, i as int).push(s@[i as int]) =~= s@.subrange(
                start as int,
                i + 1,
            ));
        }
        i = i + 1;
    }
    let (a, b) = trim_range(s, start, hi);
    pieces.push(slice_text(line, a, b));
    assert(pieces@.map_values(|a: String| a@) =~= split_args(s@.subrange(lo as int, hi as int)));
    pieces
}

/// Threshold past which a digit string is too large for any 64-bit value.
const CODE_LIMIT: i128 = 9223372036854775808;

fn code_value_exec(s: &Vec<char>, lo: usize, hi: usize) -> (r: Option<i64>)
    requires
        lo <= hi <= s@.len(),
    ensures
        match code_value(s@.subrange(lo as int, hi as int)) {
            Some(v) => r == Some(v as i64),
            None => r is None,
        },
{
    let ghost t = s@.subrange(lo as int, hi as int);
    let neg = lo < hi && s[lo] == '-';
    let start = if lo < hi && (s[lo] == '-' || s[lo] == '+') {
        lo + 1
    } else {
        lo
    };
    assert(code_digits(t) =~= s@.subrange(start as int, hi as int));
    if start == hi {
        assert(code_value(t) is None);
        return None;
    }
    let mut acc: i128 = 0;
    let mut i = start;
    while i < hi
        invariant
            lo <= start <= i <= hi <= s@.len(),
            t == s@.subrange(lo as int, hi as int),
            code_digits(t) == s@.subrange(start as int, hi as int),
            forall|k: int| start <= k < i ==> is_digit(#[trigger] s@[k]),
            digits_value(s@.subrange(start as int, i as int)) >= 0,
            0 <= acc <= CODE_LIMIT + 9,
            acc <= CODE_LIMIT ==> acc == digits_value(s@.subrange(start as int, i as int)),
            acc > CODE_LIMIT ==> digits_value(s@.subrange(start as int, i as int)) > CODE_LIMIT,
        decreases hi - i,
    {
        let c = s[i];
        if !('0' <= c && c <= '9') {
            assert(!is_digit(code_digits(t)[i - start]));
            assert(!(forall|j: int|
                0 <= j < code_digits(t).len() ==> is_digit(#[trigger] code_digits(t)[j])));
            assert(code_value(t) is None);
            return None;
        }
        assert(s@.subrange(start as int, i + 1).drop_last() =~= s@.subrange(
            start as int,
            i as int,
        ));
        if acc <= CODE_LIMIT {
            let d = (c as u32 - '0' as u32) as i128;
            let next = acc * 10 + d;
            acc = if next > CODE_LIMIT {
                CODE_LIMIT + 1
            } else {
                next
            };
        }
        i = i + 1;
    }
    assert(s@.subrange(start as int, hi as int) == code_digits(t));
    if neg {
        if acc <= CODE_LIMIT {
            Some((-acc) as i64)
        } else {
            None
        }
    } else {
        if acc < CODE_LIMIT {
            Some(acc as i64)
        } else {
            None
        }
    }
}

/// One call of a trace log: the process that made it, when the line names it;
/// the syscall's name; its arguments in positional order; and its return code.
pub struct TraceRecord {
    pub pid: Option<i64>,
    pub name: String,
    pub args: Vec<String>,
    pub code: i64,
}

impl TraceRecord {
    /// The arguments as character sequences.
    pub open spec fn args_view(&self) -> Seq<Seq<char>> {
        self.args@.map_values(|a: String| a@)
    }
}

/// What the grammar makes of one line.
pub enum ParsedLine {
    /// The line does not have the call shape.
    NoMatch,
    /// The line has the call shape, but its return code is no 64-bit integer.
    BadCode,
    /// A call.
    Record(TraceRecord),
}

/// What one line contributes.
pub enum LineOutcome {
    /// Nothing, and nothing to report.
    Ignored,
    /// Nothing, and the line deserves a warning: its return code is malformed.
    Malformed,
    /// A path that the call accessed.
    Candidate(String),
}

/// Position of the path argument for a syscall name: the second argument of
/// `openat` and `newfstatat`, the first of `open`, `readlink` and `execve`;
/// no other syscall carries a path of interest.
pub open spec fn path_arg_index(name: Seq<char>) -> Option<int> {
    if name == "openat"@ || name == "newfstatat"@ {
        Some(1)
    } else if name == "open"@ || name == "readlink"@ || name == "execve"@ {
        Some(0)
    } else {
        None
    }
}

/// Names that never carry a path: any name starting with `syscall`, `exit` and `exit_group`.
pub open spec fn is_noise_name(name: Seq<char>) -> bool {
    (name.len() >= 7 && name.subrange(0, 7) == "syscall"@) || name == "exit"@ || name
        == "exit_group"@
}

/// The path that a call denotes: none for noise names and for failed calls
/// (return code -1); otherwise the argument that `path_arg_index` designates,
/// when the call has that many arguments.
pub open spec fn extracted_path(name: Seq<char>, args: Seq<Seq<char>>, code: int) -> Option<
    Seq<char>,
> {
    if is_noise_name(name) || code == -1 {
        None
    } else {
        match path_arg_index(name) {
            Some(i) => if i < args.len() {
                Some(args[i])
            } else {
                None
            },
            None => None,
        }
    }
}

/// What a line contributes, with the path as characters.
pub enum LineView {
    /// Nothing, and nothing to report.
    Ignored,
    /// Nothing, and a warning.
    Malformed,
    /// A path.
    Candidate(Seq<char>),
}

/// What a line contributes: nothing when it lacks the call shape, a warning
/// when its return code is malformed, else the path that its call denotes.
pub open spec fn line_outcome(s: Seq<char>) -> LineView {
    if !has_shape(s) {
        LineView::Ignored
    } else {
        match code_value(code_text(s)) {
            None => LineView::Malformed,
            Some(code) => match extracted_path(name_text(s), split_args(args_text(s)), code) {
                Some(p) => LineView::Candidate(p),
                None => LineView::Ignored,
            },
        }
    }
}

impl LineOutcome {
    /// This outcome, with the path as characters.
    pub open spec fn view(&self) -> LineView {
        match self {
            LineOutcome::Ignored => LineView::Ignored,
            LineOutcome::Malformed => LineView::Malformed,
            LineOutcome::Candidate(p) => LineView::Candidate(p@),
        }
    }
}

/// Parses one trace-log line into a call record.
pub fn parse_line(line: &str) -> (r: ParsedLine)
    ensures
        match r {
            ParsedLine::NoMatch => !has_shape(line@),
            ParsedLine::BadCode => has_shape(line@) && code_value(code_text(line@)) is None,
            ParsedLine::Record(rec) => {
                &&& has_shape(line@)
                &&& code_value(code_text(line@)) == Some(rec.code as int)
                &&& rec.name@ == name_text(line@)
                &&& rec.args_view() == split_args(args_text(line@))
                &&& match pid_of(line@) {
                    Some(v) => rec.pid == Some(v as i64),
                    None => rec.pid is None,
                }
            },
        },
{
    let s = chars_of(line);
    let p = first_shape_exec(&s);
    if p >= s.len() {
        return ParsedLine::NoMatch;
    }
    proof {
        lemma_first_shape(s@, 0);
    }
    let q = find_char(&s, p + 1, ')');
    let e = skip_spaces(&s, q + 1);
    let end = skip_token(&s, e + 2);
    match code_value_exec(&s, e + 2, end) {
        None => ParsedLine::BadCode,
        Some(code) => {
            let w = name_start(&s, p);
            let name = slice_text(line, w, p);
            let args = split_range(line, &s, p + 1, q);
            let d = skip_digits(&s);
            let pid = if 0 < d && d < w && skip_spaces(&s, d) == w {
                code_value_exec(&s, 0, d)
            } else {
                None
            };
            ParsedLine::Record(TraceRecord { pid, name, args, code })
        },
    }
}

/// The path that a call record denotes, if any.
pub fn extract_path(rec: &TraceRecord) -> (r: Option<String>)
    ensures
        match extracted_path(rec.name@, rec.args_view(), rec.code as int) {
            Some(p) => r is Some && r->0@ == p,
            None => r is None,
        },
{
    proof {
        reveal_strlit("syscall");
    }
    let name = chars_of(rec.name.as_str());
    if starts_with_lit(&name, "syscall") || is_lit(&name, "exit") || is_lit(&name, "exit_group") {
        return None;
    }
    if rec.code == -1 {
        return None;
    }
    let index: usize = if is_lit(&name, "openat") || is_lit(&name, "newfstatat") {
        1
    } else if is_lit(&name, "open") || is_lit(&name, "readlink") || is_lit(&name, "execve") {
        0
    } else {
        return None;
    };
    if index < rec.args.len() {
        Some(rec.args[index].clone())
    } else {
        None
    }
}

/// What one trace-log line contributes: a candidate path, a warning, or nothing.
pub fn strace_line_to_path(line: &str) -> (r: LineOutcome)
    ensures
        r.view() == line_outcome(line@),
{
    match parse_line(line) {
        ParsedLine::NoMatch => LineOutcome::Ignored,
        ParsedLine::BadCode => LineOutcome::Malformed,
        ParsedLine::Record(rec) => match extract_path(&rec) {
            Some(p) => LineOutcome::Candidate(p),
            None => LineOutcome::Ignored,
        },
    }
}

/// The outcome of each line of a log, in order: every line is judged on its
/// own, so a malformed line changes nothing for the lines around it.
pub fn scan_lines(lines: &Vec<String>) -> (r: Vec<LineOutcome>)
    ensures
        r@.len() == lines@.len(),
        forall|i: int| 0 <= i < lines@.len() ==> #[trigger] r@[i].view() == line_outcome(lines@[i]@),
{
    let mut out: Vec<LineOutcome> = Vec::new();
    let mut i: usize = 0;
    while i < lines.len()
        invariant
            i <= lines@.len(),
            out@.len() == i,
            forall|k: int| 0 <= k < i ==> #[trigger] out@[k].view() == line_outcome(lines@[k]@),
        decreases lines@.len() - i,
    {
        out.push(strace_line_to_path(lines[i].as_str()));
        i = i + 1;
    }
    out
}

/// A line whose syscall is none of `openat`, `newfstatat`, `open`, `readlink`
/// and `execve` yields no path.
pub proof fn unlisted_syscall_yields_no_path(line: Seq<char>)
    requires
        has_shape(line),
        name_text(line) != "openat"@,
        name_text(line) != "newfstatat"@,
        name_text(line) != "open"@,
        name_text(line) != "readlink"@,
        name_text(line) != "execve"@,
    ensures
        !(line_outcome(line) is Candidate),
{
}

/// A call that failed (return code -1) yields no path, whatever the syscall.
pub proof fn failed_call_yields_no_path(line: Seq<char>)
    requires
        has_shape(line),
        code_value(code_text(line)) == Some(-1int),
    ensures
        line_outcome(line) == LineView::Ignored,
{
}

/// A line of the call shape whose return code is no integer is reported, and
/// yields no path.
pub proof fn malformed_code_is_reported(line: Seq<char>)
    requires
        has_shape(line),
        code_value(code_text(line)) is None,
    ensures
        line_outcome(line) == LineView::Malformed,
{
}

/// A successful call of a listed syscall yields the argument that
/// `path_arg_index` designates: the second of `openat` and `newfstatat`, the
/// first of `open`, `readlink` and `execve`.
pub proof fn listed_syscall_yields_its_argument(line: Seq<char>)
    requires
        has_shape(line),
        code_value(code_text(line)) is Some,
        code_value(code_text(line)) != Some(-1int),
        path_arg_index(name_text(line)) is Some,
        path_arg_index(name_text(line))->0 < split_args(args_text(line)).len(),
    ensures
        line_outcome(line) == LineView::Candidate(
            split_args(args_text(line))[path_arg_index(name_text(line))->0],
        ),
{
    reveal_strlit("openat");
    reveal_strlit("newfstatat");
    reveal_strlit("open");
    reveal_strlit("readlink");
    reveal_strlit("execve");
    reveal_strlit("exit");
    reveal_strlit("exit_group");
    reveal_strlit("syscall");
    let n = name_text(line);
    if n.len() >= 7 {
        assert(n.subrange(0, 7)[0] == n[0]);
    }
    if n == "exit"@ || n == "exit_group"@ {
        assert(n[0] == 'e' && n[1] == 'x');
    }
    assert(!is_noise_name(n));
}

} // verus!
