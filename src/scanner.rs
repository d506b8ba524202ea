//! The per-line scanner.
use vstd::prelude::*;
use crate::entities::{sym_views, push_char, FPoint, MetaData, PointState, PointView, StateView, Token, TokenView, ValueView, VariableType};
use crate::utility::{intern, s_hash};

verus! {

broadcast use crate::entities::lemma_views_push;

/// The characters of a text, in order.
pub fn chars_of(s: &str) -> (r: Vec<char>)
    ensures
        r@ == s@,
{
    let mut v: Vec<char> = Vec::new();
    for c in it: s.chars()
        invariant
            v@ == it.seq().take(it.index() as int),
    {
        v.push(c);
    }
    v
}

/// What a line's scan yields: its points, the symbols it saw with their
/// roles, and its net comment delta.
pub struct ScanView {
    pub points: Seq<PointView>,
    pub syms: Seq<(i16, TokenView)>,
    pub delta: int,
}

pub open spec fn is_digit(c: char) -> bool {
    '0' <= c <= '9'
}

/// Punctuation that stands for itself.
pub open spec fn is_punct(c: char) -> bool {
    c == ';' || c == ':' || c == '(' || c == ')' || c == '{' || c == '}' || c == '[' || c == ']'
        || c == ',' || c == '+' || c == '-' || c == '=' || c == '|'
}

/// Characters that end a word.
pub open spec fn is_stop(c: char) -> bool {
    is_punct(c) || c == '*' || c == '/' || c == ' ' || c == '\''
}

/// The index of the first stop character at or after `k`.
pub open spec fn word_end(chars: Seq<char>, k: int) -> int
    decreases chars.len() - k,
{
    if k < 0 || k >= chars.len() || is_stop(chars[k]) {
        k
    } else {
        word_end(chars, k + 1)
    }
}

/// Reads a number from `k` on: digits, and the first `.` (later ones are
/// passed over). Gives the lexeme, the index past it, and whether it had a `.`.
pub open spec fn number_scan(chars: Seq<char>, k: int, acc: Seq<char>, is_float: bool) -> (Seq<char>, int, bool)
    decreases chars.len() - k,
{
    if k < 0 || k >= chars.len() {
        (acc, k, is_float)
    } else if is_digit(chars[k]) {
        number_scan(chars, k + 1, acc.push(chars[k]), is_float)
    } else if chars[k] == '.' {
        if is_float {
            number_scan(chars, k + 1, acc, true)
        } else {
            number_scan(chars, k + 1, acc.push('.'), true)
        }
    } else {
        (acc, k, is_float)
    }
}

/// The value of a run of decimal digits.
pub open spec fn decimal_value(s: Seq<char>) -> nat
    decreases s.len(),
{
    if s.len() == 0 {
        0
    } else {
        10 * decimal_value(s.drop_last()) + (s.last() as nat - '0' as nat) as nat
    }
}

pub open spec fn with_point(s: ScanView, line: u32, raw: Seq<char>, st: StateView) -> ScanView {
    ScanView { points: s.points.push(PointView { line, raw, state: st }), ..s }
}

pub open spec fn with_sym(s: ScanView, k: i16, t: TokenView) -> ScanView {
    ScanView { syms: s.syms.push((k, t)), ..s }
}

/// A recognised lexeme: its point, and its symbol with the role it was seen in.
pub open spec fn lexeme(s: ScanView, line: u32, t: Seq<char>, role: TokenView) -> ScanView {
    with_sym(with_point(s, line, t, StateView::Token(intern(t))), intern(t), role)
}

/// A character literal `'c'` at `i`.
pub open spec fn scan_char_literal(chars: Seq<char>, line: u32, i: int, s: ScanView) -> (ScanView, int) {
    let c = chars[i];
    if i + 2 < chars.len() {
        let t = chars.subrange(i, i + 3);
        if t[2] == '\'' {
            (lexeme(s, line, t, TokenView::Lit(ValueView::Character(t[1]))), i + 3)
        } else {
            (with_point(s, line, t, StateView::Error("Wrong literal character type"@)), i + 4)
        }
    } else {
        (with_point(s, line, seq![c], StateView::Error("Wrong literal character type"@)), i + 2)
    }
}

/// A number starting with the digit at `i`.
pub open spec fn scan_number(chars: Seq<char>, line: u32, i: int, s: ScanView) -> (ScanView, int) {
    let r = number_scan(chars, i + 1, seq![chars[i]], false);
    let t = r.0;
    if r.2 {
        (lexeme(s, line, t, TokenView::Lit(ValueView::Float(t))), r.1)
    } else if decimal_value(t) <= i32::MAX {
        (lexeme(s, line, t, TokenView::Lit(ValueView::Integer(decimal_value(t) as i32))), r.1)
    } else {
        (with_point(s, line, t, StateView::Error("Could no parse the integer type"@)), r.1)
    }
}

/// A word starting at `i`: an identifier or a keyword.
pub open spec fn scan_word(chars: Seq<char>, line: u32, i: int, s: ScanView) -> (ScanView, int) {
    let e = word_end(chars, i + 1);
    let t = chars.subrange(i, e);
    (lexeme(s, line, t, TokenView::Und), e)
}

/// One lexeme or marker at `i`: the new scan and the index past it.
pub open spec fn scan_one(chars: Seq<char>, line: u32, i: int, s: ScanView) -> (ScanView, int) {
    let c = chars[i];
    let n = chars.len();
    if c == '\'' {
        scan_char_literal(chars, line, i, s)
    } else if is_digit(c) {
        scan_number(chars, line, i, s)
    } else if is_punct(c) {
        (with_point(s, line, seq![c], StateView::Token(intern(seq![c]))), i + 1)
    } else if c == '*' && i + 1 < n && chars[i + 1] == '/' {
        (ScanView { points: Seq::empty(), syms: Seq::empty(), delta: if s.delta > -128 { s.delta - 1 } else { -128 } }, i + 2)
    } else if c == '/' && i + 1 < n && chars[i + 1] == '*' {
        (ScanView { delta: s.delta + 1, ..s }, i + 2)
    } else if c == '*' || c == '/' {
        (with_point(s, line, seq![c], StateView::Token(intern(seq![c]))), i + 1)
    } else if c == ' ' {
        (s, i + 1)
    } else {
        scan_word(chars, line, i, s)
    }
}

/// Scans the line from `i` on. Once more comments are open than closed,
/// nothing further on the line is read.
pub open spec fn scan_from(chars: Seq<char>, line: u32, i: int, s: ScanView) -> ScanView
    decreases chars.len() - i,
{
    if i < 0 || i >= chars.len() || s.delta > 0 {
        s
    } else {
        let r = scan_one(chars, line, i, s);
        if i < r.1 <= chars.len() {
            scan_from(chars, line, r.1, r.0)
        } else {
            r.0
        }
    }
}

/// What scanning a whole line yields.
pub open spec fn scan_line(chars: Seq<char>, line: u32) -> ScanView {
    scan_from(chars, line, 0, ScanView { points: Seq::empty(), syms: Seq::empty(), delta: 0 })
}

pub open spec fn scan_view(points: Seq<FPoint>, syms: Seq<(i16, Token)>, delta: i8) -> ScanView {
    ScanView { points: crate::entities::views(points), syms: sym_views(syms), delta: delta as int }
}

fn push_sym(syms: &mut Vec<(i16, Token)>, key: i16, role: Token)
    ensures
        sym_views(final(syms)@) == sym_views(old(syms)@).push((key, role@)),
{
    let ghost old_syms = syms@;
    syms.push((key, role));
    proof {
        crate::entities::lemma_sym_views_push(old_syms, (key, role));
    }
}

/// The text made of `chars[a..b]`.
fn string_of_range(chars: &Vec<char>, a: usize, b: usize) -> (r: String)
    requires
        a <= b <= chars.len(),
    ensures
        r@ == chars@.subrange(a as int, b as int),
{
    let mut r = String::new();
    let mut k: usize = a;
    while k < b
        invariant
            a <= k <= b <= chars.len(),
            r@ == chars@.subrange(a as int, k as int),
        decreases b - k,
    {
        push_char(&mut r, chars[k]);
        proof {
            assert(chars@.subrange(a as int, k + 1) =~= chars@.subrange(a as int, k as int).push(chars@[k as int]));
        }
        k = k + 1;
    }
    r
}

fn is_stop_char(c: char) -> (r: bool)
    ensures
        r == is_stop(c),
{
    c == ';' || c == ':' || c == '(' || c == ')' || c == '{' || c == '}' || c == '[' || c == ']' || c == ','
        || c == '+' || c == '-' || c == '=' || c == '|' || c == '*' || c == '/' || c == ' ' || c == '\''
}

fn find_word_end(chars: &Vec<char>, k: usize) -> (r: usize)
    requires
        k <= chars.len(),
    ensures
        r as int == word_end(chars@, k as int),
        k <= r <= chars.len(),
{
    let mut e: usize = k;
    while e < chars.len() && !is_stop_char(chars[e])
        invariant
            k <= e <= chars.len(),
            word_end(chars@, e as int) == word_end(chars@, k as int),
        decreases chars.len() - e,
    {
        e = e + 1;
    }
    e
}

fn read_number(chars: &Vec<char>, k: usize, first: char) -> (r: (Vec<char>, usize, bool))
    requires
        k <= chars.len(),
        is_digit(first),
    ensures
        (r.0@, r.1 as int, r.2) == number_scan(chars@, k as int, seq![first], false),
        k <= r.1 <= chars.len(),
        !r.2 ==> forall|j: int| 0 <= j < r.0@.len() ==> is_digit(#[trigger] r.0@[j]),
{
    let mut acc: Vec<char> = Vec::new();
    acc.push(first);
    let mut e: usize = k;
    let mut is_float = false;
    let ghost target = number_scan(chars@, k as int, acc@, false);
    assert(acc@ =~= seq![first]);
    while e < chars.len() && (('0' <= chars[e] && chars[e] <= '9') || chars[e] == '.')
        invariant
            k <= e <= chars.len(),
            number_scan(chars@, e as int, acc@, is_float) == target,
            !is_float ==> forall|j: int| 0 <= j < acc@.len() ==> is_digit(#[trigger] acc@[j]),
        decreases chars.len() - e,
    {
        if chars[e] == '.' {
            if !is_float {
                acc.push('.');
                is_float = true;
            }
        } else {
            acc.push(chars[e]);
        }
        e = e + 1;
    }
    (acc, e, is_float)
}

proof fn lemma_decimal_prefix(s: Seq<char>, j: int)
    requires
        0 <= j <= s.len(),
    ensures
        decimal_value(s.subrange(0, j)) <= decimal_value(s),
    decreases s.len(),
{
    if j < s.len() {
        lemma_decimal_prefix(s.drop_last(), j);
        assert(s.drop_last().subrange(0, j) =~= s.subrange(0, j));
    } else {
        assert(s.subrange(0, j) =~= s);
    }
}

/// The value of a run of digits, if it fits in an `i32`.
fn parse_decimal(t: &Vec<char>) -> (r: Option<i32>)
    requires
        forall|j: int| 0 <= j < t@.len() ==> is_digit(#[trigger] t@[j]),
    ensures
        decimal_value(t@) <= i32::MAX ==> r == Some(decimal_value(t@) as i32),
        decimal_value(t@) > i32::MAX ==> r is None,
{
    let mut v: u64 = 0;
    let mut j: usize = 0;
    while j < t.len()
        invariant
            j <= t@.len(),
            forall|q: int| 0 <= q < t@.len() ==> is_digit(#[trigger] t@[q]),
            v == decimal_value(t@.subrange(0, j as int)),
            v <= i32::MAX,
        decreases t@.len() - j,
    {
        let d = (t[j] as u32 - '0' as u32) as u64;
        proof {
            assert(t@.subrange(0, j + 1).drop_last() =~= t@.subrange(0, j as int));
        }
        v = v * 10 + d;
        if v > 2147483647 {
            proof {
                lemma_decimal_prefix(t@, j + 1);
            }
            return None;
        }
        j = j + 1;
    }
    proof {
        assert(t@.subrange(0, j as int) =~= t@);
    }
    Some(v as i32)
}

/// An index past the end of the line counts as the end of the line.
pub open spec fn capped(next: int, n: int) -> int {
    if next <= n { next } else { n }
}

fn lex_char_literal(chars: &Vec<char>, line: u32, i: usize, points: &mut Vec<FPoint>, syms: &mut Vec<(i16, Token)>) -> (next: usize)
    requires
        i < chars.len(),
        chars@[i as int] == '\'',
    ensures
        ({
            let r = scan_char_literal(chars@, line, i as int, scan_view(old(points)@, old(syms)@, 0));
            &&& crate::entities::views(final(points)@) == r.0.points
            &&& sym_views(final(syms)@) == r.0.syms
            &&& next as int == capped(r.1, chars.len() as int)
        }),
        i < next <= chars.len(),
{
    let n = chars.len();
    if n - i > 2 {
        let t = string_of_range(chars, i, i + 3);
        assert(t@[1] == chars@[i + 1] && t@[2] == chars@[i + 2]);
        if chars[i + 2] == '\'' {
            let k = s_hash(t.as_str());
            points.push(FPoint { meta_data: MetaData { line, raw: t }, state: PointState::Token(k) });
            push_sym(syms, k, Token::Lit(VariableType::Character(chars[i + 1])));
            i + 3
        } else {
            points.push(FPoint { meta_data: MetaData { line, raw: t }, state: PointState::Error(String::from_str("Wrong literal character type")) });
            if n - i >= 4 { i + 4 } else { n }
        }
    } else {
        let t = string_of_range(chars, i, i + 1);
        assert(t@ =~= seq![chars@[i as int]]);
        points.push(FPoint { meta_data: MetaData { line, raw: t }, state: PointState::Error(String::from_str("Wrong literal character type")) });
        if n - i >= 2 { i + 2 } else { n }
    }
}

fn lex_number(chars: &Vec<char>, line: u32, i: usize, points: &mut Vec<FPoint>, syms: &mut Vec<(i16, Token)>) -> (next: usize)
    requires
        i < chars.len(),
        is_digit(chars@[i as int]),
    ensures
        ({
            let r = scan_number(chars@, line, i as int, scan_view(old(points)@, old(syms)@, 0));
            &&& crate::entities::views(final(points)@) == r.0.points
            &&& sym_views(final(syms)@) == r.0.syms
            &&& next as int == capped(r.1, chars.len() as int)
        }),
        i < next <= chars.len(),
{
    let (lex, e, is_float) = read_number(chars, i + 1, chars[i]);
    let t = string_of_range(&lex, 0, lex.len());
    proof {
        assert(lex@.subrange(0, lex@.len() as int) =~= lex@);
    }
    if is_float {
        let k = s_hash(t.as_str());
        let v = t.clone();
        points.push(FPoint { meta_data: MetaData { line, raw: t }, state: PointState::Token(k) });
        push_sym(syms, k, Token::Lit(VariableType::Float(v)));
    } else {
        match parse_decimal(&lex) {
            Some(v) => {
                let k = s_hash(t.as_str());
                points.push(FPoint { meta_data: MetaData { line, raw: t }, state: PointState::Token(k) });
                push_sym(syms, k, Token::Lit(VariableType::Integer(v)));
            },
            None => {
                points.push(FPoint { meta_data: MetaData { line, raw: t }, state: PointState::Error(String::from_str("Could no parse the integer type")) });
            },
        }
    }
    e
}

fn lex_word(chars: &Vec<char>, line: u32, i: usize, points: &mut Vec<FPoint>, syms: &mut Vec<(i16, Token)>) -> (next: usize)
    requires
        i < chars.len(),
    ensures
        ({
            let r = scan_word(chars@, line, i as int, scan_view(old(points)@, old(syms)@, 0));
            &&& crate::entities::views(final(points)@) == r.0.points
            &&& sym_views(final(syms)@) == r.0.syms
            &&& next as int == capped(r.1, chars.len() as int)
        }),
        i < next <= chars.len(),
{
    let e = find_word_end(chars, i + 1);
    let t = string_of_range(chars, i, e);
    let k = s_hash(t.as_str());
    points.push(FPoint { meta_data: MetaData { line, raw: t }, state: PointState::Token(k) });
    push_sym(syms, k, Token::Und);
    e
}

/// Scans one line: its points in order, the symbols it saw with their roles,
/// and its net comment delta (`/*` counts +1, `*/` counts -1, saturating).
/// Once more comments are open than closed nothing further on the line is
/// read; a `*/` drops every point and symbol gathered before it on the line.
pub fn tokenizer(line: String, line_num: u32) -> (r: (Vec<FPoint>, Vec<(i16, Token)>, i8))
    ensures
        scan_view(r.0@, r.1@, r.2) == scan_line(line@, line_num),
{
    let chars = chars_of(line.as_str());
    let n = chars.len();
    let mut points: Vec<FPoint> = Vec::new();
    let mut syms: Vec<(i16, Token)> = Vec::new();
    let mut delta: i8 = 0;
    let mut i: usize = 0;
    proof {
        assert(scan_view(points@, syms@, delta).points =~= Seq::empty());
        assert(scan_view(points@, syms@, delta).syms =~= Seq::empty());
    }
    while i < n && delta <= 0
        invariant
            i <= n,
            n == chars@.len(),
            chars@ == line@,
            scan_from(chars@, line_num, i as int, scan_view(points@, syms@, delta)) == scan_line(line@, line_num),
        decreases n - i,
    {
        let ghost s0 = scan_view(points@, syms@, delta);
        let c = chars[i];
        let next: usize;
        if c == '\'' {
            next = lex_char_literal(&chars, line_num, i, &mut points, &mut syms);
        } else if '0' <= c && c <= '9' {
            next = lex_number(&chars, line_num, i, &mut points, &mut syms);
        } else if c == ';' || c == ':' || c == '(' || c == ')' || c == '{' || c == '}' || c == '[' || c == ']'
            || c == ',' || c == '+' || c == '-' || c == '=' || c == '|' {
            let t = string_of_range(&chars, i, i + 1);
            assert(t@ =~= seq![c]);
            let k = s_hash(t.as_str());
            points.push(FPoint { meta_data: MetaData { line: line_num, raw: t }, state: PointState::Token(k) });
            next = i + 1;
        } else if c == '*' && n - i > 1 && chars[i + 1] == '/' {
            points = Vec::new();
            syms = Vec::new();
            proof {
                assert(crate::entities::views(points@) =~= Seq::empty());
                assert(sym_views(syms@) =~= Seq::empty());
            }
            delta = if delta > -128 { delta - 1 } else { -128 };
            next = i + 2;
        } else if c == '/' && n - i > 1 && chars[i + 1] == '*' {
            delta = delta + 1;
            next = i + 2;
        } else if c == '*' || c == '/' {
            let t = string_of_range(&chars, i, i + 1);
            assert(t@ =~= seq![c]);
            let k = s_hash(t.as_str());
            points.push(FPoint { meta_data: MetaData { line: line_num, raw: t }, state: PointState::Token(k) });
            next = i + 1;
        } else if c == ' ' {
            next = i + 1;
        } else {
            next = lex_word(&chars, line_num, i, &mut points, &mut syms);
        }
        proof {
            let r = scan_one(chars@, line_num, i as int, s0);
            assert(scan_view(points@, syms@, delta).points =~= r.0.points);
            assert(scan_view(points@, syms@, delta).syms =~= r.0.syms);
            assert(next as int == capped(r.1, n as int));
        }
        i = next;
    }
    (points, syms, delta)
}

} // verus!
