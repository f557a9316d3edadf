//! Parser for the status-line markup language.
//!
//! A line is a run of literal text segments interleaved with directives
//! written `%{...}`: colors (`B<hex>`, `F<hex>`, `B-`, `F-`), actions
//! (`A<button?>:<command>:`, bare `A`), swap (`R`), alignment (`l`, `c`,
//! `r`), cursor offsets (`O<decimal>`) and attribute toggles (`+u`,
//! `-u`, `!u`, `+o`, `-o`, `!o`). The grammar is stated by the
//! `spec_parse` family of specification functions; the executable
//! parser returns exactly what they describe.

use vstd::prelude::*;
use vstd::string::StrSliceExecFns;

use crate::color::{is_hex_digit, spec_color_from_hex};

verus! {

/// How a style directive picks a color.
#[derive(Debug, PartialEq, Eq, Clone, Copy)]
pub enum Color {
    /// Reset to the configured default.
    UseDefault,
    /// Keep the color that is currently in effect.
    Unchanged,
    /// Switch to an explicit color.
    New(crate::color::Color),
}

impl Color {
    /// Resolve the reference against the configured default and the
    /// color currently in effect.
    pub fn into_color(
        self,
        default: crate::color::Color,
        now: crate::color::Color,
    ) -> (r: crate::color::Color)
        ensures
            r == (match self {
                Color::UseDefault => default,
                Color::Unchanged => now,
                Color::New(c) => c,
            }),
    {
        match self {
            Color::UseDefault => default,
            Color::Unchanged => now,
            Color::New(c) => c,
        }
    }
}

/// A change of the foreground and/or background color.
#[derive(Debug, PartialEq, Eq, Clone, Copy)]
pub struct Style {
    pub fg: Color,
    pub bg: Color,
}

impl Style {
    /// Build a style change; `None` keeps the color in effect,
    /// `Some` switches to that explicit color.
    pub fn new(
        foreground: Option<crate::color::Color>,
        background: Option<crate::color::Color>,
    ) -> (s: Style)
        ensures
            s.fg == (match foreground {
                Some(c) => Color::New(c),
                None => Color::Unchanged,
            }),
            s.bg == (match background {
                Some(c) => Color::New(c),
                None => Color::Unchanged,
            }),
    {
        Style {
            fg: match foreground {
                Some(c) => Color::New(c),
                None => Color::Unchanged,
            },
            bg: match background {
                Some(c) => Color::New(c),
                None => Color::Unchanged,
            },
        }
    }

    pub fn foreground_color(&self) -> (r: Color)
        ensures
            r == self.fg,
    {
        self.fg
    }

    pub fn background_color(&self) -> (r: Color)
        ensures
            r == self.bg,
    {
        self.bg
    }
}

/// The three alignment lanes.
#[derive(Debug, PartialEq, Eq, Clone, Copy)]
pub enum Align {
    Left,
    Center,
    Right,
}

/// A decoration that can be toggled over a span of text.
#[derive(Debug, PartialEq, Eq, Clone, Copy)]
pub enum Attribute {
    Overline,
    Underline,
}

/// What an attribute directive does to its decoration.
#[derive(Debug, PartialEq, Eq, Clone, Copy)]
pub enum AttributeAction {
    On,
    Off,
    Toggle,
}

/// The opening of a clickable region: a mouse button and the command
/// to report when that region is clicked.
#[derive(Debug, PartialEq)]
pub struct Action {
    pub button: u8,
    pub cmd: Vec<char>,
}

impl Action {
    pub fn new(button: u8, cmd: Vec<char>) -> (a: Action)
        ensures
            a.button == button,
            a.cmd == cmd,
    {
        Action { button, cmd }
    }

    pub fn into_tuple(self) -> (r: (u8, Vec<char>))
        ensures
            r.0 == self.button,
            r.1 == self.cmd,
    {
        (self.button, self.cmd)
    }
}

/// One parsed unit of the markup: a literal text run or a directive.
#[derive(Debug, PartialEq)]
pub enum StyledStringPart {
    Text(Vec<char>),
    Style(Style),
    Action(Action),
    ActionEnd,
    Swap,
    Align(Align),
    Offset(usize),
    Attribute { attribute: Attribute, action: AttributeAction },
}

/// Mathematical form of a parsed unit, with text as character
/// sequences.
pub ghost enum PartView {
    Text(Seq<char>),
    Style(Style),
    Action { button: u8, cmd: Seq<char> },
    ActionEnd,
    Swap,
    Align(Align),
    Offset(usize),
    Attribute { attribute: Attribute, action: AttributeAction },
}

impl View for StyledStringPart {
    type V = PartView;

    open spec fn view(&self) -> PartView {
        match self {
            StyledStringPart::Text(s) => PartView::Text(s@),
            StyledStringPart::Style(st) => PartView::Style(*st),
            StyledStringPart::Action(a) => PartView::Action { button: a.button, cmd: a.cmd@ },
            StyledStringPart::ActionEnd => PartView::ActionEnd,
            StyledStringPart::Swap => PartView::Swap,
            StyledStringPart::Align(al) => PartView::Align(*al),
            StyledStringPart::Offset(n) => PartView::Offset(*n),
            StyledStringPart::Attribute { attribute, action } => PartView::Attribute {
                attribute: *attribute,
                action: *action,
            },
        }
    }
}

/// A whole parsed status line: its parts in textual order.
#[derive(Debug, PartialEq)]
pub struct StyledString {
    pub content: Vec<StyledStringPart>,
}

impl View for StyledString {
    type V = Seq<PartView>;

    open spec fn view(&self) -> Seq<PartView> {
        self.content@.map_values(|p: StyledStringPart| p@)
    }
}

impl StyledString {
    pub fn new(content: Vec<StyledStringPart>) -> (s: StyledString)
        ensures
            s@ == content@.map_values(|p: StyledStringPart| p@),
    {
        StyledString { content }
    }

    pub fn into_content(self) -> (r: Vec<StyledStringPart>)
        ensures
            r == self.content,
            r@.map_values(|p: StyledStringPart| p@) == self@,
    {
        self.content
    }
}

/// A parse failure, with the character position the parser could not
/// get past.
#[derive(Debug, PartialEq)]
pub struct ParseError {
    pub position: usize,
}

/// Whether `c` can stand in a literal text run (anything but the
/// directive sentinel).
pub open spec fn is_text_char(c: char) -> bool {
    c != '%'
}

/// Whether `c` is an ASCII decimal digit.
pub open spec fn is_dec_digit(c: char) -> bool {
    48 <= c as u32 && c as u32 <= 57
}

/// Whether `c` can stand in an action command (anything but the
/// closing delimiter).
pub open spec fn is_cmd_char(c: char) -> bool {
    c != ':'
}

/// Length of the maximal run of literal text characters from `i`.
pub open spec fn text_run_len(s: Seq<char>, i: int) -> nat
    decreases s.len() - i,
{
    if i < 0 || i >= s.len() || !is_text_char(s[i]) {
        0
    } else {
        (1 + text_run_len(s, i + 1)) as nat
    }
}

/// Length of the maximal run of hex digits from `i`.
pub open spec fn hex_run_len(s: Seq<char>, i: int) -> nat
    decreases s.len() - i,
{
    if i < 0 || i >= s.len() || !is_hex_digit(s[i]) {
        0
    } else {
        (1 + hex_run_len(s, i + 1)) as nat
    }
}

/// Length of the maximal run of decimal digits from `i`.
pub open spec fn dec_run_len(s: Seq<char>, i: int) -> nat
    decreases s.len() - i,
{
    if i < 0 || i >= s.len() || !is_dec_digit(s[i]) {
        0
    } else {
        (1 + dec_run_len(s, i + 1)) as nat
    }
}

/// Length of the maximal run of command characters from `i`.
pub open spec fn cmd_run_len(s: Seq<char>, i: int) -> nat
    decreases s.len() - i,
{
    if i < 0 || i >= s.len() || !is_cmd_char(s[i]) {
        0
    } else {
        (1 + cmd_run_len(s, i + 1)) as nat
    }
}

/// The number a run of decimal digits denotes.
pub open spec fn dec_val(s: Seq<char>) -> nat
    decreases s.len(),
{
    if s.len() == 0 {
        0
    } else {
        (dec_val(s.drop_last()) * 10 + (s.last() as u32 - 48)) as nat
    }
}

/// Parse a color directive (`B`/`F` with hex digits or `-`) whose
/// sentinel starts at `i`; yields the directive and the position after
/// its closing brace.
pub open spec fn spec_parse_style(s: Seq<char>, i: int) -> Option<(PartView, int)> {
    let j = i + 2;  // the 'B' or 'F'
    let k = i + 3;  // first char after it
    if k < s.len() && s[k] == '-' {
        if k + 1 < s.len() && s[k + 1] == '}' {
            if s[j] == 'B' {
                Some((PartView::Style(Style { fg: Color::Unchanged, bg: Color::UseDefault }), k + 2))
            } else {
                Some((PartView::Style(Style { fg: Color::UseDefault, bg: Color::Unchanged }), k + 2))
            }
        } else {
            None
        }
    } else {
        let n = hex_run_len(s, k) as int;
        if 3 <= n <= 8 && k + n < s.len() && s[k + n] == '}' {
            match spec_color_from_hex(s.subrange(k, k + n)) {
                Some(c) => if s[j] == 'B' {
                    Some((PartView::Style(Style { fg: Color::Unchanged, bg: Color::New(c) }), k + n + 1))
                } else {
                    Some((PartView::Style(Style { fg: Color::New(c), bg: Color::Unchanged }), k + n + 1))
                },
                None => None,
            }
        } else {
            None
        }
    }
}

/// Parse an action directive (`A<button?>:<command>:` or bare `A`)
/// whose sentinel starts at `i`.
pub open spec fn spec_parse_action(s: Seq<char>, i: int) -> Option<(PartView, int)> {
    let k = i + 3;  // first char after the 'A'
    if k < s.len() && s[k] == '}' {
        Some((PartView::ActionEnd, k + 1))
    } else {
        let button: u8 = if k < s.len() && 49 <= s[k] as u32 && s[k] as u32 <= 53 {
            (s[k] as u32 - 48) as u8
        } else {
            1
        };
        let k2 = if k < s.len() && 49 <= s[k] as u32 && s[k] as u32 <= 53 {
            k + 1
        } else {
            k
        };
        if k2 < s.len() && s[k2] == ':' {
            let m = cmd_run_len(s, k2 + 1) as int;
            if m >= 1 && k2 + 1 + m < s.len() && s[k2 + 1 + m] == ':' && k2 + m + 2 < s.len()
                && s[k2 + m + 2] == '}' {
                Some((PartView::Action { button, cmd: s.subrange(k2 + 1, k2 + 1 + m) }, k2 + m + 3))
            } else {
                None
            }
        } else {
            None
        }
    }
}

/// Parse an offset directive (`O<decimal>`) whose sentinel starts at
/// `i`. A value beyond the machine word fails the parse.
pub open spec fn spec_parse_offset(s: Seq<char>, i: int) -> Option<(PartView, int)> {
    let k = i + 3;  // first char after the 'O'
    let n = dec_run_len(s, k) as int;
    if n >= 1 && k + n < s.len() && s[k + n] == '}' {
        if dec_val(s.subrange(k, k + n)) <= usize::MAX {
            Some((PartView::Offset(dec_val(s.subrange(k, k + n)) as usize), k + n + 1))
        } else {
            None
        }
    } else {
        None
    }
}

/// Parse an attribute directive (`+`/`-`/`!` then `o`/`u`) whose
/// sentinel starts at `i`.
pub open spec fn spec_parse_attribute(s: Seq<char>, i: int) -> Option<(PartView, int)> {
    let j = i + 2;  // the '+', '-' or '!'
    let k = i + 3;  // the 'o' or 'u'
    let action = if s[j] == '+' {
        AttributeAction::On
    } else if s[j] == '-' {
        AttributeAction::Off
    } else {
        AttributeAction::Toggle
    };
    if k < s.len() && (s[k] == 'o' || s[k] == 'u') {
        let attribute = if s[k] == 'o' {
            Attribute::Overline
        } else {
            Attribute::Underline
        };
        if k + 1 < s.len() && s[k + 1] == '}' {
            Some((PartView::Attribute { attribute, action }, k + 2))
        } else {
            None
        }
    } else {
        None
    }
}

/// Parse one directive whose `%` sentinel stands at `i`.
pub open spec fn spec_parse_directive(s: Seq<char>, i: int) -> Option<(PartView, int)> {
    if !(0 <= i && i + 1 < s.len() && s[i] == '%' && s[i + 1] == '{') {
        None
    } else {
        let j = i + 2;
        if j >= s.len() {
            None
        } else if s[j] == 'B' || s[j] == 'F' {
            spec_parse_style(s, i)
        } else if s[j] == 'A' {
            spec_parse_action(s, i)
        } else if s[j] == 'R' {
            if j + 1 < s.len() && s[j + 1] == '}' {
                Some((PartView::Swap, j + 2))
            } else {
                None
            }
        } else if s[j] == 'l' {
            if j + 1 < s.len() && s[j + 1] == '}' {
                Some((PartView::Align(Align::Left), j + 2))
            } else {
                None
            }
        } else if s[j] == 'c' {
            if j + 1 < s.len() && s[j + 1] == '}' {
                Some((PartView::Align(Align::Center), j + 2))
            } else {
                None
            }
        } else if s[j] == 'r' {
            if j + 1 < s.len() && s[j + 1] == '}' {
                Some((PartView::Align(Align::Right), j + 2))
            } else {
                None
            }
        } else if s[j] == 'O' {
            spec_parse_offset(s, i)
        } else if s[j] == '+' || s[j] == '-' || s[j] == '!' {
            spec_parse_attribute(s, i)
        } else {
            None
        }
    }
}

/// Parse one part starting at `i`: a directive if the sentinel stands
/// there, else the maximal literal text run.
pub open spec fn spec_parse_part(s: Seq<char>, i: int) -> Option<(PartView, int)> {
    if !(0 <= i < s.len()) {
        None
    } else if s[i] == '%' {
        spec_parse_directive(s, i)
    } else {
        let n = text_run_len(s, i) as int;
        Some((PartView::Text(s.subrange(i, i + n)), i + n))
    }
}

/// Parse the rest of the line from position `i`: the sequence of parts
/// up to the end, or nothing if any part is malformed.
pub open spec fn spec_parse_from(s: Seq<char>, i: int) -> Option<Seq<PartView>>
    decreases s.len() - i,
{
    if i >= s.len() {
        Some(Seq::empty())
    } else {
        match spec_parse_part(s, i) {
            None => None,
            Some((p, j)) => if i < j <= s.len() {
                match spec_parse_from(s, j) {
                    None => None,
                    Some(rest) => Some(seq![p] + rest),
                }
            } else {
                None
            },
        }
    }
}

/// The parts a whole line parses to, if it is well formed.
pub open spec fn spec_parse(s: Seq<char>) -> Option<Seq<PartView>> {
    spec_parse_from(s, 0)
}

/// The characters of `s`, in order.
pub fn str_to_chars(s: &str) -> (v: Vec<char>)
    ensures
        v@ == s@,
{
    let n = s.unicode_len();
    let mut v: Vec<char> = Vec::new();
    let mut i: usize = 0;
    while i < n
        invariant
            i <= n,
            n == s@.len(),
            v@ == s@.subrange(0, i as int),
        decreases n - i,
    {
        let c = s.get_char(i);
        v.push(c);
        proof {
            assert(v@ =~= s@.subrange(0, i + 1 as int));
        }
        i += 1;
    }
    proof {
        assert(s@.subrange(0, n as int) =~= s@);
    }
    v
}

/// First position at or after `start` that ends the literal text run.
fn scan_text(v: &Vec<char>, start: usize) -> (j: usize)
    requires
        start <= v@.len(),
    ensures
        start <= j <= v@.len(),
        j == start + text_run_len(v@, start as int),
{
    let mut i = start;
    while i < v.len() && v[i] != '%'
        invariant
            start <= i <= v@.len(),
            start + text_run_len(v@, start as int) == i + text_run_len(v@, i as int),
        decreases v@.len() - i,
    {
        i += 1;
    }
    i
}

/// First position at or after `start` that ends the hex digit run.
fn scan_hex(v: &Vec<char>, start: usize) -> (j: usize)
    requires
        start <= v@.len(),
    ensures
        start <= j <= v@.len(),
        j == start + hex_run_len(v@, start as int),
{
    let mut i = start;
    while i < v.len() && crate::color::is_hex_char(v[i])
        invariant
            start <= i <= v@.len(),
            start + hex_run_len(v@, start as int) == i + hex_run_len(v@, i as int),
        decreases v@.len() - i,
    {
        i += 1;
    }
    i
}

/// First position at or after `start` that ends the decimal digit run.
fn scan_dec(v: &Vec<char>, start: usize) -> (j: usize)
    requires
        start <= v@.len(),
    ensures
        start <= j <= v@.len(),
        j == start + dec_run_len(v@, start as int),
{
    let mut i = start;
    while i < v.len() && 48 <= v[i] as u32 && v[i] as u32 <= 57
        invariant
            start <= i <= v@.len(),
            start + dec_run_len(v@, start as int) == i + dec_run_len(v@, i as int),
        decreases v@.len() - i,
    {
        i += 1;
    }
    i
}

/// First position at or after `start` that ends the command run.
fn scan_cmd(v: &Vec<char>, start: usize) -> (j: usize)
    requires
        start <= v@.len(),
    ensures
        start <= j <= v@.len(),
        j == start + cmd_run_len(v@, start as int),
{
    let mut i = start;
    while i < v.len() && v[i] != ':'
        invariant
            start <= i <= v@.len(),
            start + cmd_run_len(v@, start as int) == i + cmd_run_len(v@, i as int),
        decreases v@.len() - i,
    {
        i += 1;
    }
    i
}

/// Appending digits to a digit run never shrinks its value.
proof fn lemma_dec_val_monotone(s: Seq<char>, t: Seq<char>)
    requires
        s.len() <= t.len(),
        forall|k: int| 0 <= k < s.len() ==> s[k] == t[k],
        forall|k: int| 0 <= k < t.len() ==> is_dec_digit(#[trigger] t[k]),
    ensures
        dec_val(s) <= dec_val(t),
    decreases t.len(),
{
    if t.len() > s.len() {
        lemma_dec_val_monotone(s, t.drop_last());
        assert(is_dec_digit(t.last()));
        assert(dec_val(t) >= dec_val(t.drop_last()) * 10) by {
            vstd::arithmetic::mul::lemma_mul_inequality(0, dec_val(t.drop_last()) as int, 10);
        };
        assert(dec_val(t.drop_last()) * 10 >= dec_val(t.drop_last())) by {
            vstd::arithmetic::mul::lemma_mul_inequality(1, 10, dec_val(t.drop_last()) as int);
        };
    } else {
        assert(s =~= t);
    }
}

/// The value of the digit run `v[start .. end]`, unless it does not
/// fit a machine word.
fn parse_decimal(v: &Vec<char>, start: usize, end: usize) -> (r: Option<usize>)
    requires
        start <= end <= v@.len(),
        forall|k: int| start <= k < end ==> is_dec_digit(#[trigger] v@[k]),
    ensures
        (match r {
            Some(val) => val == dec_val(v@.subrange(start as int, end as int)),
            None => dec_val(v@.subrange(start as int, end as int)) > usize::MAX,
        }),
{
    let ghost whole = v@.subrange(start as int, end as int);
    let mut val: usize = 0;
    let mut i = start;
    while i < end
        invariant
            start <= i <= end <= v@.len(),
            whole == v@.subrange(start as int, end as int),
            forall|k: int| start <= k < end ==> is_dec_digit(#[trigger] v@[k]),
            val == dec_val(v@.subrange(start as int, i as int)),
        decreases end - i,
    {
        let ghost pre = v@.subrange(start as int, i as int);
        let ghost cur = v@.subrange(start as int, i + 1 as int);
        proof {
            assert(cur.drop_last() =~= pre);
            assert(cur.last() == v@[i as int]);
        }
        let d = (v[i] as u32 - 48) as usize;
        if val > (usize::MAX - d) / 10 {
            proof {
                // val * 10 + d overflows, and every longer run is at
                // least as large.
                vstd::arithmetic::div_mod::lemma_fundamental_div_mod(
                    (usize::MAX - d) as int, 10);
                assert(val * 10 + d > usize::MAX) by {
                    vstd::arithmetic::mul::lemma_mul_inequality(
                        (usize::MAX - d) as int / 10 + 1, val as int, 10);
                };
                assert(forall|k: int| 0 <= k < whole.len()
                    ==> is_dec_digit(#[trigger] whole[k]));
                lemma_dec_val_monotone(cur, whole);
            }
            return None;
        }
        proof {
            assert(val * 10 <= (usize::MAX - d) / 10 * 10) by {
                vstd::arithmetic::mul::lemma_mul_inequality(
                    val as int, (usize::MAX - d) as int / 10, 10);
            };
            assert((usize::MAX - d) / 10 * 10 <= usize::MAX - d) by {
                vstd::arithmetic::div_mod::lemma_fundamental_div_mod(
                    (usize::MAX - d) as int, 10);
            };
        }
        val = val * 10 + d;
        i += 1;
    }
    Some(val)
}

/// Every character inside a decimal digit run is a decimal digit.
proof fn lemma_dec_run_digits(s: Seq<char>, i: int)
    requires
        0 <= i <= s.len(),
    ensures
        forall|k: int| i <= k < i + dec_run_len(s, i) ==> is_dec_digit(#[trigger] s[k]),
    decreases s.len() - i,
{
    if i < s.len() && is_dec_digit(s[i]) {
        lemma_dec_run_digits(s, i + 1);
    }
}

/// A copy of `v[start .. end]`.
fn copy_range(v: &Vec<char>, start: usize, end: usize) -> (r: Vec<char>)
    requires
        start <= end <= v@.len(),
    ensures
        r@ == v@.subrange(start as int, end as int),
{
    let mut r: Vec<char> = Vec::new();
    let mut i = start;
    while i < end
        invariant
            start <= i <= end <= v@.len(),
            r@ == v@.subrange(start as int, i as int),
        decreases end - i,
    {
        r.push(v[i]);
        proof {
            assert(r@ =~= v@.subrange(start as int, i + 1 as int));
        }
        i += 1;
    }
    r
}

/// Parse one part starting at `i`: exactly what [`spec_parse_part`]
/// describes, with the position after the part.
fn parse_part(v: &Vec<char>, i: usize) -> (r: Option<(StyledStringPart, usize)>)
    requires
        i < v@.len(),
    ensures
        (match r {
            Some((p, j)) => i < j <= v@.len() && spec_parse_part(v@, i as int) == Some(
                (p@, j as int)),
            None => spec_parse_part(v@, i as int) is None,
        }),
{
    let n = v.len();
    if v[i] != '%' {
        let j = scan_text(v, i);
        let text = copy_range(v, i, j);
        return Some((StyledStringPart::Text(text), j));
    }
    // A directive: the sentinel, then one of the directive forms.
    if i + 1 >= n || v[i + 1] != '{' {
        return None;
    }
    let j = i + 2;
    if j >= n {
        return None;
    }
    let cj = v[j];
    if cj == 'B' || cj == 'F' {
        let k = j + 1;
        if k < n && v[k] == '-' {
            if k + 1 < n && v[k + 1] == '}' {
                let st = if cj == 'B' {
                    Style { fg: Color::Unchanged, bg: Color::UseDefault }
                } else {
                    Style { fg: Color::UseDefault, bg: Color::Unchanged }
                };
                return Some((StyledStringPart::Style(st), k + 2));
            }
            return None;
        }
        let e = scan_hex(v, k);
        let run = e - k;
        if 3 <= run && run <= 8 && e < n && v[e] == '}' {
            match crate::color::Color::from_hex_range(v, k, e) {
                Some(c) => {
                    let st = if cj == 'B' {
                        Style { fg: Color::Unchanged, bg: Color::New(c) }
                    } else {
                        Style { fg: Color::New(c), bg: Color::Unchanged }
                    };
                    return Some((StyledStringPart::Style(st), e + 1));
                },
                None => {
                    return None;
                },
            }
        }
        return None;
    }
    if cj == 'A' {
        let k = j + 1;
        if k < n && v[k] == '}' {
            return Some((StyledStringPart::ActionEnd, k + 1));
        }
        let mut button: u8 = 1;
        let mut k2 = k;
        if k < n {
            let u = v[k] as u32;
            if 49 <= u && u <= 53 {
                button = (u - 48) as u8;
                k2 = k + 1;
            }
        }
        if k2 >= n || v[k2] != ':' {
            return None;
        }
        let e = scan_cmd(v, k2 + 1);
        let m = e - (k2 + 1);
        if m >= 1 && e < n && v[e] == ':' && e + 1 < n && v[e + 1] == '}' {
            let cmd = copy_range(v, k2 + 1, e);
            return Some((StyledStringPart::Action(Action { button, cmd }), e + 2));
        }
        return None;
    }
    if cj == 'R' {
        if j + 1 < n && v[j + 1] == '}' {
            return Some((StyledStringPart::Swap, j + 2));
        }
        return None;
    }
    if cj == 'l' {
        if j + 1 < n && v[j + 1] == '}' {
            return Some((StyledStringPart::Align(Align::Left), j + 2));
        }
        return None;
    }
    if cj == 'c' {
        if j + 1 < n && v[j + 1] == '}' {
            return Some((StyledStringPart::Align(Align::Center), j + 2));
        }
        return None;
    }
    if cj == 'r' {
        if j + 1 < n && v[j + 1] == '}' {
            return Some((StyledStringPart::Align(Align::Right), j + 2));
        }
        return None;
    }
    if cj == 'O' {
        let k = j + 1;
        let e = scan_dec(v, k);
        let run = e - k;
        if run >= 1 && e < n && v[e] == '}' {
            proof {
                lemma_dec_run_digits(v@, k as int);
            }
            match parse_decimal(v, k, e) {
                Some(val) => {
                    return Some((StyledStringPart::Offset(val), e + 1));
                },
                None => {
                    return None;
                },
            }
        }
        return None;
    }
    if cj == '+' || cj == '-' || cj == '!' {
        let action = if cj == '+' {
            AttributeAction::On
        } else if cj == '-' {
            AttributeAction::Off
        } else {
            AttributeAction::Toggle
        };
        let k = j + 1;
        if k < n && (v[k] == 'o' || v[k] == 'u') {
            let attribute = if v[k] == 'o' {
                Attribute::Overline
            } else {
                Attribute::Underline
            };
            if k + 1 < n && v[k + 1] == '}' {
                return Some((StyledStringPart::Attribute { attribute, action }, k + 2));
            }
        }
        return None;
    }
    None
}

/// Parse a whole line, given as its characters.
///
/// Returns the parts of [`spec_parse`] exactly: `Ok` with the parsed
/// parts when the line is well formed, `Err` (with the position the
/// parser could not get past) exactly when `spec_parse` yields
/// nothing.
pub fn parse_chars(v: &Vec<char>) -> (r: Result<StyledString, ParseError>)
    ensures
        (match r {
            Ok(ss) => spec_parse(v@) == Some(ss@),
            Err(e) => spec_parse(v@) is None && e.position <= v@.len(),
        }),
{
    let ghost s = v@;
    let mut content: Vec<StyledStringPart> = Vec::new();
    let mut i: usize = 0;
    loop
        invariant
            i <= s.len(),
            s == v@,
            spec_parse_from(s, 0) == (match spec_parse_from(s, i as int) {
                Some(rest) => Some(content@.map_values(|p: StyledStringPart| p@) + rest),
                None => None::<Seq<PartView>>,
            }),
        decreases s.len() - i,
    {
        let ghost acc = content@.map_values(|p: StyledStringPart| p@);
        if i >= v.len() {
            proof {
                assert(spec_parse_from(s, i as int) == Some(Seq::<PartView>::empty()));
                assert(acc + Seq::<PartView>::empty() =~= acc);
            }
            let ss = StyledString { content };
            return Ok(ss);
        }
        match parse_part(v, i) {
            None => {
                proof {
                    assert(spec_parse_from(s, i as int) is None);
                }
                return Err(ParseError { position: i });
            },
            Some((p, j)) => {
                proof {
                    let rest_i = spec_parse_from(s, i as int);
                    let rest_j = spec_parse_from(s, j as int);
                    match rest_j {
                        None => {
                            assert(rest_i is None);
                        },
                        Some(r2) => {
                            assert(rest_i == Some(seq![p@] + r2));
                            assert(acc + (seq![p@] + r2) =~= (acc + seq![p@]) + r2);
                        },
                    }
                }
                content.push(p);
                proof {
                    assert(content@.map_values(|q: StyledStringPart| q@) =~= acc + seq![p@]);
                }
                i = j;
            },
        }
    }
}

/// Parse a whole status line.
pub fn parse_styled_string(line: &str) -> (r: Result<StyledString, ParseError>)
    ensures
        (match r {
            Ok(ss) => spec_parse(line@) == Some(ss@),
            Err(e) => spec_parse(line@) is None && e.position <= line@.len(),
        }),
{
    let v = str_to_chars(line);
    parse_chars(&v)
}

impl core::str::FromStr for StyledString {
    type Err = ParseError;

    fn from_str(line: &str) -> Result<StyledString, ParseError> {
        parse_styled_string(line)
    }
}

} // verus!
