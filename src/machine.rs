//! The parser as a state machine: one step per point and obligation, and
//! the run of steps to the end of the input.
use vstd::prelude::*;
use crate::entities::{merged, parsed, Kind, PointView, Precedence, StateView, Token};
use crate::fragment::{Frag, Label};
use crate::grammar::{Keywords, Obligation};

verus! {

/// What the parser reads: the merged points (the header included), the keys it
/// dispatches on, and the precedence table.
pub struct Ctx {
    pub points: Seq<PointView>,
    pub kw: Keywords,
    pub prec: Map<i16, Map<i16, Precedence>>,
}

/// The parser's state: the cursor over the points, the obligation stack, the
/// output so far and the symbol table.
pub struct Model {
    pub cursor: int,
    pub stack: Seq<Obligation>,
    pub out: Seq<PointView>,
    pub table: Map<i16, Token>,
}

pub open spec fn is_tok(pts: Seq<PointView>, i: int, k: i16) -> bool {
    0 <= i < pts.len() && pts[i].state == StateView::Token(k)
}

pub open spec fn is_any_tok(pts: Seq<PointView>, i: int) -> bool {
    0 <= i < pts.len() && pts[i].state is Token
}

/// The role of a symbol; a symbol absent from the table counts as undefined.
pub open spec fn role(table: Map<i16, Token>, k: i16) -> Token {
    if table.contains_key(k) {
        table[k]
    } else {
        Token::Und
    }
}

/// The kind of the literal or variable at point `i`, if it is one.
pub open spec fn operand_kind(pts: Seq<PointView>, i: int, table: Map<i16, Token>) -> Option<Kind> {
    match pts[i].state {
        StateView::Token(s) => role(table, s).value_kind(),
        _ => None,
    }
}

/// One error point for the points `pts[a..b]`.
pub open spec fn err_span(pts: Seq<PointView>, a: int, b: int, msg: Seq<char>) -> PointView {
    merged(pts, a, b, StateView::Error(msg))
}

pub open spec fn top(m: Model) -> Option<Obligation> {
    if m.stack.len() > 0 {
        Some(m.stack.last())
    } else {
        None
    }
}

pub open spec fn pop(m: Model) -> Model {
    if m.stack.len() > 0 {
        Model { stack: m.stack.drop_last(), ..m }
    } else {
        m
    }
}

pub open spec fn emit(m: Model, p: PointView) -> Model {
    Model { out: m.out.push(p), ..m }
}

pub open spec fn oblige(m: Model, o: Obligation) -> Model {
    Model { stack: m.stack.push(o), ..m }
}

pub open spec fn goto(m: Model, c: int) -> Model {
    Model { cursor: c, ..m }
}

/// `data division ;` or `procedure division ;`, opening a scope.
pub open spec fn open_division(c: Ctx, m: Model, label: i16, ob: Obligation, msg: Seq<char>) -> Model {
    let i = m.cursor;
    let p = c.points;
    if p.len() - i < 3 {
        goto(emit(m, err_span(p, i, i + 1, "bad input"@)), i + 1)
    } else if !(is_tok(p, i + 1, c.kw.division) && is_tok(p, i + 2, c.kw.semicolon)) {
        goto(emit(m, err_span(p, i, i + 3, msg)), i + 1)
    } else {
        goto(oblige(emit(m, merged(p, i, i + 3, StateView::ParsedToken(label))), ob), i + 3)
    }
}

/// `end ;`, closing the scope on top.
pub open spec fn end_scope(c: Ctx, m: Model) -> Model {
    let i = m.cursor;
    let p = c.points;
    if p.len() - i < 2 {
        goto(emit(m, err_span(p, i, i + 1, "bad input"@)), i + 1)
    } else if !is_tok(p, i + 1, c.kw.semicolon) {
        goto(emit(m, err_span(p, i, i + 2, "expected: end;"@)), i + 1)
    } else {
        goto(pop(emit(m, merged(p, i, i + 2, StateView::ParsedToken(c.kw.end)))), i + 2)
    }
}

/// `repeat {` or `execute {`, opening a loop body.
pub open spec fn open_loop(c: Ctx, m: Model, ob: Obligation, msg: Seq<char>) -> Model {
    let i = m.cursor;
    let p = c.points;
    if p.len() - i < 2 {
        goto(emit(m, err_span(p, i, i + 1, "bad input"@)), i + 1)
    } else if !is_tok(p, i + 1, c.kw.lbrace) {
        goto(emit(m, err_span(p, i, i + 2, msg)), i + 1)
    } else {
        goto(oblige(emit(emit(m, parsed(p[i])), parsed(p[i + 1])), ob), i + 2)
    }
}

/// `}` closing a `repeat` body: `<operand> times ;`, or a condition.
pub open spec fn close_repeat(c: Ctx, m: Model) -> Model {
    let i = m.cursor;
    let p = c.points;
    let m1 = emit(pop(m), parsed(p[i]));
    if p.len() - i < 4 {
        emit(m1, err_span(p, i, i + 1, "bad input"@))
    } else if is_tok(p, i + 2, c.kw.times) {
        if operand_kind(p, i + 1, m.table) is None {
            goto(emit(m1, err_span(p, i + 1, i + 3, "bad input"@)), i + 3)
        } else if !is_tok(p, i + 3, c.kw.semicolon) {
            goto(emit(m1, err_span(p, i + 3, i + 4, "expected: ;"@)), i + 3)
        } else {
            goto(emit(emit(m1, parsed(p[i + 2])), parsed(p[i + 1])), i + 3)
        }
    } else if is_any_tok(p, i + 2) {
        goto(oblige(oblige(m1, Obligation::Condition), Obligation::Condition), i + 1)
    } else {
        goto(emit(m1, err_span(p, i + 1, i + 3, "bad input"@)), i + 3)
    }
}

/// `}` closing an `execute` body, followed by a condition.
pub open spec fn close_execute(c: Ctx, m: Model) -> Model {
    let i = m.cursor;
    let p = c.points;
    let m1 = emit(pop(m), parsed(p[i]));
    if p.len() - i < 4 {
        emit(m1, err_span(p, i, i + 1, "bad input"@))
    } else if is_any_tok(p, i + 2) {
        goto(oblige(oblige(m1, Obligation::Condition), Obligation::Condition), i + 1)
    } else {
        goto(emit(m1, err_span(p, i + 1, i + 3, "bad input"@)), i + 3)
    }
}

/// Where the scan of a declaration stands.
#[derive(Clone, Copy)]
pub enum DeclPhase {
    Name,
    Sep,
    Type,
    Semi,
    Skip,
}

/// Scans `id (, id)* : type ;` from point `k`: the index past the clause,
/// whether it had that shape, and the indices of the names and of the type.
pub open spec fn decl_scan(p: Seq<PointView>, kw: Keywords, k: int, ph: DeclPhase, refs: Seq<usize>) -> (int, bool, Seq<usize>)
    decreases p.len() - k,
{
    if k < 0 || k >= p.len() {
        (k, false, refs)
    } else {
        match ph {
            DeclPhase::Name => decl_scan(p, kw, k + 1, DeclPhase::Sep, refs.push(k as usize)),
            DeclPhase::Sep => if is_tok(p, k, kw.comma) {
                decl_scan(p, kw, k + 1, DeclPhase::Name, refs)
            } else if is_tok(p, k, kw.colon) {
                decl_scan(p, kw, k + 1, DeclPhase::Type, refs)
            } else {
                decl_scan(p, kw, k + 1, DeclPhase::Skip, refs)
            },
            DeclPhase::Type => decl_scan(p, kw, k + 1, DeclPhase::Semi, refs.push(k as usize)),
            DeclPhase::Semi => if is_tok(p, k, kw.semicolon) {
                (k + 1, true, refs)
            } else {
                decl_scan(p, kw, k + 1, DeclPhase::Skip, refs)
            },
            DeclPhase::Skip => if is_tok(p, k, kw.semicolon) {
                (k + 1, false, refs)
            } else {
                decl_scan(p, kw, k + 1, DeclPhase::Skip, refs)
            },
        }
    }
}

/// The symbol of a `Token` point.
pub open spec fn sym(s: StateView) -> i16 {
    match s {
        StateView::Token(k) => k,
        _ => 0,
    }
}

pub open spec fn all_tokens(p: Seq<PointView>, refs: Seq<usize>) -> bool {
    forall|j: int| 0 <= j < refs.len() ==> #[trigger] p[refs[j] as int].state is Token
}

pub open spec fn syms_of(p: Seq<PointView>, refs: Seq<usize>) -> Seq<i16> {
    refs.map_values(|r: usize| sym(p[r as int].state))
}

/// The kind that a type keyword names.
pub open spec fn type_named(kw: Keywords, s: i16) -> Option<Kind> {
    if s == kw.integer {
        Some(Kind::Integer)
    } else if s == kw.float {
        Some(Kind::Float)
    } else if s == kw.char_kw {
        Some(Kind::Character)
    } else {
        None
    }
}

/// Why the `idx`-th declared name cannot be declared, if it cannot: it is
/// predefined or a literal, or it is already a variable or named earlier in
/// the same clause.
pub open spec fn decl_fault(table: Map<i16, Token>, names: Seq<i16>, idx: int) -> Option<Seq<char>> {
    if exists|m: int| 0 <= m < idx && names[m] == names[idx] {
        Some("cannot redefine variables"@)
    } else {
        match role(table, names[idx]) {
            Token::Pred => Some("cannot use predefined or literal expressions"@),
            Token::Lit(_) => Some("cannot use predefined or literal expressions"@),
            Token::Var(_) => Some("cannot redefine variables"@),
            Token::Und => None,
        }
    }
}

/// The first fault among the names from `idx` on.
pub open spec fn first_decl_fault(table: Map<i16, Token>, names: Seq<i16>, idx: int) -> Option<Seq<char>>
    decreases names.len() - idx,
{
    if idx < 0 || idx >= names.len() {
        None
    } else {
        match decl_fault(table, names, idx) {
            Some(e) => Some(e),
            None => first_decl_fault(table, names, idx + 1),
        }
    }
}

/// The table with every name declared a variable of kind `k`.
pub open spec fn declare_all(table: Map<i16, Token>, names: Seq<i16>, k: Kind) -> Map<i16, Token>
    decreases names.len(),
{
    if names.len() == 0 {
        table
    } else {
        declare_all(table, names.drop_last(), k).insert(names.last(), Token::Var(k))
    }
}

/// The points emitted for the operands of a clause.
pub open spec fn operand_points(line: u32, names: Seq<i16>) -> Seq<PointView> {
    names.map_values(|s: i16| PointView { line, raw: "val"@, state: StateView::ParsedToken(s) })
}

/// The outcome of a declaration clause at the cursor: the error message, or
/// the names and their kind.
pub open spec fn decl_outcome(c: Ctx, m: Model) -> Result<(Seq<i16>, Kind), Seq<char>> {
    let p = c.points;
    let scan = decl_scan(p, c.kw, m.cursor, DeclPhase::Name, Seq::empty());
    let refs = scan.2;
    if !scan.1 {
        Err("expected: <var> ,... : <type>;"@)
    } else if !all_tokens(p, refs) {
        Err("bad input"@)
    } else {
        let syms = syms_of(p, refs);
        match type_named(c.kw, syms.last()) {
            None => Err("type must be: integer or float or char"@),
            Some(k) => {
                let names = syms.drop_last();
                match first_decl_fault(m.table, names, 0) {
                    Some(e) => Err(e),
                    None => Ok((names, k)),
                }
            },
        }
    }
}

/// A declaration clause inside a data division.
pub open spec fn declaration(c: Ctx, m: Model) -> Model {
    let p = c.points;
    let i = m.cursor;
    let scan = decl_scan(p, c.kw, i, DeclPhase::Name, Seq::empty());
    let end = scan.0;
    match decl_outcome(c, m) {
        Ok((names, k)) => Model {
            cursor: end,
            out: m.out + operand_points(p[scan.2[0] as int].line, names),
            table: declare_all(m.table, names, k),
            ..m
        },
        Err(e) => goto(emit(m, err_span(p, i, end, e)), end),
    }
}

/// Where the scan of a `get` or `put` list stands.
#[derive(Clone, Copy)]
pub enum ListPhase {
    Name,
    Sep,
    Skip,
}

/// How the scan of a list ended.
#[derive(Clone, Copy)]
pub enum ListEnd {
    Accepted,
    Rejected,
    Unterminated,
}

/// Scans `id (, id)* ;` after point `k`: the index of the closing `;` (or the
/// number of points), how the scan ended, and the indices of the operands.
pub open spec fn list_scan(p: Seq<PointView>, kw: Keywords, k: int, ph: ListPhase, refs: Seq<usize>) -> (int, ListEnd, Seq<usize>)
    decreases p.len() - k,
{
    if k < 0 || k + 1 >= p.len() {
        (p.len() as int, ListEnd::Unterminated, refs)
    } else {
        let k1 = k + 1;
        match ph {
            ListPhase::Name => list_scan(p, kw, k1, ListPhase::Sep, refs.push(k1 as usize)),
            ListPhase::Sep => if is_tok(p, k1, kw.comma) {
                list_scan(p, kw, k1, ListPhase::Name, refs)
            } else if is_tok(p, k1, kw.semicolon) {
                (k1, ListEnd::Accepted, refs)
            } else {
                list_scan(p, kw, k1, ListPhase::Skip, refs)
            },
            ListPhase::Skip => if is_tok(p, k1, kw.semicolon) {
                (k1, ListEnd::Rejected, refs)
            } else {
                list_scan(p, kw, k1, ListPhase::Skip, refs)
            },
        }
    }
}

/// Why an operand of `get` or `put` is refused, if it is: it must be a
/// declared variable.
pub open spec fn io_fault(table: Map<i16, Token>, s: i16) -> Option<Seq<char>> {
    match role(table, s) {
        Token::Pred => Some("cannot use predefined or literal expressions"@),
        Token::Lit(_) => Some("cannot use predefined or literal expressions"@),
        Token::Und => Some("cannot use undefined variables"@),
        Token::Var(_) => None,
    }
}

pub open spec fn first_io_fault(table: Map<i16, Token>, names: Seq<i16>, idx: int) -> Option<Seq<char>>
    decreases names.len() - idx,
{
    if idx < 0 || idx >= names.len() {
        None
    } else {
        match io_fault(table, names[idx]) {
            Some(e) => Some(e),
            None => first_io_fault(table, names, idx + 1),
        }
    }
}

/// The outcome of a `get` or `put` statement at the cursor.
pub open spec fn io_outcome(c: Ctx, m: Model) -> Result<Seq<i16>, Seq<char>> {
    let p = c.points;
    let scan = list_scan(p, c.kw, m.cursor, ListPhase::Name, Seq::empty());
    if !(scan.1 is Accepted) {
        Err("expected: get <var> ,... ;"@)
    } else if !all_tokens(p, scan.2) {
        Err("bad input"@)
    } else {
        let names = syms_of(p, scan.2);
        match first_io_fault(m.table, names, 0) {
            Some(e) => Err(e),
            None => Ok(names),
        }
    }
}

/// A `get` or `put` statement.
pub open spec fn io_list(c: Ctx, m: Model) -> Model {
    let p = c.points;
    let i = m.cursor;
    let scan = list_scan(p, c.kw, i, ListPhase::Name, Seq::empty());
    let end = scan.0;
    match io_outcome(c, m) {
        Ok(names) => Model {
            cursor: end,
            out: m.out.push(parsed(p[i])) + operand_points(p[scan.2[0] as int].line, names),
            ..m
        },
        Err(e) => goto(emit(m, err_span(p, i, end, e)), end),
    }
}

/// The kind of the variable at point `i`, if it is a declared variable.
pub open spec fn variable_kind(pts: Seq<PointView>, i: int, table: Map<i16, Token>) -> Option<Kind> {
    match pts[i].state {
        StateView::Token(s) => match role(table, s) {
            Token::Var(k) => Some(k),
            _ => None,
        },
        _ => None,
    }
}

/// `set <var> to`, which obliges an expression of the variable's kind and a `;`.
pub open spec fn assignment(c: Ctx, m: Model) -> Model {
    let i = m.cursor;
    let p = c.points;
    if p.len() - i < 5 {
        goto(emit(m, err_span(p, i, i + 1, "bad input"@)), i + 1)
    } else if variable_kind(p, i + 1, m.table) is None || !is_tok(p, i + 2, c.kw.to) {
        goto(emit(m, err_span(p, i, i + 3, "expected: set <var> to"@)), i + 1)
    } else {
        let k = variable_kind(p, i + 1, m.table)->0;
        let m1 = emit(m, parsed(p[i + 1]));
        let m2 = oblige(oblige(m1, Obligation::SetEnd), Obligation::Typed(k));
        goto(oblige(emit(m2, merged(p, i, i + 3, StateView::ParsedToken(c.kw.assign))), Obligation::Math), i + 3)
    }
}

/// The `;` that closes a `set`.
pub open spec fn set_end(c: Ctx, m: Model) -> Model {
    let i = m.cursor;
    let p = c.points;
    let m1 = goto(pop(m), i + 1);
    if is_tok(p, i, c.kw.semicolon) {
        emit(m1, parsed(p[i]))
    } else {
        emit(m1, err_span(p, i, i + 1, "expected: ;"@))
    }
}

pub open spec fn is_relop(kw: Keywords, s: StateView) -> bool {
    s == StateView::Token(kw.lt) || s == StateView::Token(kw.le) || s == StateView::Token(kw.gt)
        || s == StateView::Token(kw.ge) || s == StateView::Token(kw.ne) || s == StateView::Token(kw.eq)
}

/// The relational operator between the two operands of a comparison.
pub open spec fn operator(c: Ctx, m: Model) -> Model {
    let i = m.cursor;
    let p = c.points;
    let m1 = goto(pop(m), i + 1);
    if is_relop(c.kw, p[i].state) {
        emit(m1, parsed(p[i]))
    } else {
        emit(m1, err_span(p, i, i + 1, "expected: LT or LE or GT or GE or NE or EQ"@))
    }
}

/// The obligations of one comparison of operands of kind `k`, the first
/// operand on top.
pub open spec fn comparison(k: Kind) -> Seq<Obligation> {
    seq![
        Obligation::ConditionEnd,
        Obligation::Typed(k),
        Obligation::Math,
        Obligation::Operator,
        Obligation::Typed(k),
        Obligation::Math,
    ]
}

/// The opening keyword of a condition, or the keyword that continues a chain
/// (`either`/`Or`, `neither`/`nor`, `both`/`And`).
pub open spec fn condition(c: Ctx, m: Model) -> Model {
    let i = m.cursor;
    let p = c.points;
    let kw = c.kw;
    let m1 = pop(m);
    if p.len() <= i + 5 {
        goto(emit(m1, err_span(p, i, i + 1, "bad input;"@)), i + 1)
    } else {
        let t2 = top(m1);
        let opens = t2 == Some(Obligation::Condition);
        let (m2, middle, ok) = if is_tok(p, i, kw.either) && opens {
            (oblige(pop(m1), Obligation::EitherOr), false, true)
        } else if is_tok(p, i, kw.neither) && opens {
            (oblige(pop(m1), Obligation::NeitherNor), false, true)
        } else if is_tok(p, i, kw.both) && opens {
            (oblige(pop(m1), Obligation::BothAnd), false, true)
        } else if is_tok(p, i, kw.or_uc) && t2 == Some(Obligation::EitherOr) {
            (pop(m1), true, true)
        } else if is_tok(p, i, kw.nor) && t2 == Some(Obligation::NeitherNor) {
            (pop(m1), true, true)
        } else if is_tok(p, i, kw.and_uc) && t2 == Some(Obligation::BothAnd) {
            (pop(m1), true, true)
        } else {
            (pop(m1), false, false)
        };
        if !ok {
            goto(emit(m2, err_span(p, i, i + 1, "bad input"@)), i + 2)
        } else {
            let m3 = emit(m2, parsed(p[i]));
            match operand_kind(p, i + 1, m.table) {
                None => goto(emit(m3, err_span(p, i + 1, i + 2, "bad input"@)), i + 2),
                Some(k) => {
                    let obs = if middle {
                        comparison(k)
                    } else {
                        seq![Obligation::Condition] + comparison(k)
                    };
                    Model { cursor: i + 1, stack: m3.stack + obs, ..m3 }
                },
            }
        }
    }
}

/// What follows a comparison: `;`, or `and`/`or` (optionally `not`) and the
/// next comparison.
pub open spec fn condition_end(c: Ctx, m: Model) -> Model {
    let i = m.cursor;
    let p = c.points;
    let kw = c.kw;
    let m1 = pop(m);
    if is_tok(p, i, kw.semicolon) {
        goto(emit(m1, parsed(p[i])), i + 1)
    } else if is_tok(p, i, kw.and_lc) || is_tok(p, i, kw.or_lc) {
        let m2 = emit(m1, parsed(p[i]));
        if p.len() <= i + 5 {
            goto(emit(m2, err_span(p, i, i + 1, "bad input;"@)), i + 1)
        } else {
            let has_not = is_tok(p, i + 1, kw.not);
            let k = if has_not { i + 2 } else { i + 1 };
            let m3 = if has_not { emit(m2, parsed(p[i + 1])) } else { m2 };
            if is_any_tok(p, k) {
                match operand_kind(p, k, m.table) {
                    Some(kd) => Model { cursor: k, stack: m3.stack + comparison(kd), ..m3 },
                    None => goto(emit(m3, err_span(p, k, k + 1, "bad input"@)), k + 1),
                }
            } else if top(m3) == Some(Obligation::Condition) {
                goto(m3, k - 1)
            } else {
                goto(emit(m3, err_span(p, k, k + 1, "bad input"@)), k + 1)
            }
        }
    } else if top(m1) == Some(Obligation::Condition) {
        goto(m1, i)
    } else {
        goto(emit(m1, err_span(p, i, i + 1, "expected: ;"@)), i + 1)
    }
}

/// The relation between two grammar symbols, if the table defines one.
pub open spec fn relation(prec: Map<i16, Map<i16, Precedence>>, a: i16, b: i16) -> Option<Precedence> {
    if prec.contains_key(a) && prec[a].contains_key(b) {
        Some(prec[a][b])
    } else {
        None
    }
}

/// Reduces the fragment stack while the relation between the two topmost
/// fragments asks for it; the flag says whether parsing has ended.
pub open spec fn reduce(prec: Map<i16, Map<i16, Precedence>>, frags: Seq<Frag>) -> (Seq<Frag>, bool)
    decreases frags.len(),
{
    if frags.len() <= 1 {
        (frags, false)
    } else {
        let n = frags.len();
        let snd = frags[n - 2];
        let fst = frags[n - 1];
        let rest = frags.subrange(0, n - 2);
        match relation(prec, snd.label.symbol(), fst.label.symbol()) {
            Some(Precedence::Lesser) => (frags, false),
            Some(Precedence::Greater) => reduce(prec, rest.push(fst.add_right(snd))),
            Some(Precedence::Needs(x)) => {
                let node = Frag::single(Label::Mark(x)).add_right(fst).add_right(snd);
                if n == 2 {
                    (rest.push(node), true)
                } else {
                    reduce(prec, rest.push(node))
                }
            },
            None => (frags, true),
        }
    }
}

pub open spec fn is_arith(kw: Keywords, s: i16) -> bool {
    s == kw.plus || s == kw.minus || s == kw.star || s == kw.slash || s == kw.lparen || s == kw.rparen
}

/// The fragment that point `i` is shifted as, or why it cannot be.
pub open spec fn shifted(c: Ctx, table: Map<i16, Token>, mt: Option<Kind>, i: int) -> Result<Frag, Seq<char>> {
    let p = c.points;
    let kw = c.kw;
    match p[i].state {
        StateView::Token(s) => match role(table, s) {
            Token::Pred => if is_arith(kw, s) {
                Ok(Frag::single(Label::Leaf(s, parsed(p[i]))))
            } else {
                Ok(Frag::single(Label::Mark(kw.semicolon)))
            },
            Token::Und => Err("bad input"@),
            _ => if role(table, s).value_kind() == mt {
                Ok(Frag::single(Label::Leaf(kw.id, parsed(p[i]))))
            } else {
                Err("wrong type of variable or literal"@)
            },
        },
        _ => Err("bad input"@),
    }
}

/// Runs the operator-precedence loop from point `k`: the fragments left, the
/// index past the last point read, and the failure message.
pub open spec fn expr_loop(c: Ctx, table: Map<i16, Token>, mt: Option<Kind>, frags: Seq<Frag>, k: int, msg: Seq<char>) -> (Seq<Frag>, int, Seq<char>)
    decreases c.points.len() - k,
{
    if k < 0 || k >= c.points.len() {
        (frags, k, msg)
    } else {
        let r = reduce(c.prec, frags);
        if r.1 {
            (r.0, k, msg)
        } else {
            match shifted(c, table, mt, k) {
                Ok(f) => expr_loop(c, table, mt, r.0.push(f), k + 1, msg),
                Err(e) => (r.0, k + 1, e),
            }
        }
    }
}

/// The kind that an expression obligation asks for.
pub open spec fn wanted_kind(o: Option<Obligation>) -> Option<Kind> {
    match o {
        Some(Obligation::Typed(k)) => Some(k),
        _ => None,
    }
}

/// Whether a fragment stack is the accepted parse of an expression.
pub open spec fn accepted(kw: Keywords, frags: Seq<Frag>) -> bool {
    frags.len() == 1 && frags[0].label == Label::Mark(kw.accept)
}

/// Where the error span of a failed expression ends.
pub open spec fn expr_error_end(p: Seq<PointView>, kw: Keywords, i: int, e: int) -> int {
    let e1 = if !is_tok(p, e - 1, kw.semicolon) { e - 1 } else { e };
    let e2 = if e1 >= p.len() { p.len() - 1 } else { e1 };
    if e2 == i { i + 1 } else { e2 }
}

/// An arithmetic expression of the kind on the stack below the obligation.
/// On success its points are emitted in the order of the fragment tree and
/// the cursor stays on the point that ended it.
pub open spec fn expression(c: Ctx, m: Model) -> Model {
    let i = m.cursor;
    let p = c.points;
    let m1 = pop(m);
    let mt = wanted_kind(top(m1));
    let m2 = pop(m1);
    let r = expr_loop(c, m.table, mt, seq![Frag::single(Label::Mark(c.kw.start))], i, Seq::empty());
    if accepted(c.kw, r.0) {
        Model { cursor: r.1 - 1, out: m2.out + r.0[0].flat(), ..m2 }
    } else {
        let e = expr_error_end(p, c.kw, i, r.1);
        goto(emit(m2, err_span(p, i, e, r.2)), e)
    }
}

/// One step of the parser: the rule chosen by the point at the cursor and the
/// obligation on top of the stack.
pub open spec fn step(c: Ctx, m: Model) -> Model {
    let p = c.points;
    let i = m.cursor;
    let kw = c.kw;
    let t = top(m);
    let body = t == Some(Obligation::Procedure) || t == Some(Obligation::Repeat);
    if t is None && is_tok(p, i, kw.data) {
        open_division(c, m, kw.data, Obligation::Data, "expected: data division;"@)
    } else if is_tok(p, i, kw.end) && t == Some(Obligation::Data) {
        end_scope(c, m)
    } else if t is None && is_tok(p, i, kw.procedure) {
        open_division(c, m, kw.procedure, Obligation::Procedure, "expected: procedure division;"@)
    } else if is_tok(p, i, kw.end) && t == Some(Obligation::Procedure) {
        end_scope(c, m)
    } else if t == Some(Obligation::Data) {
        declaration(c, m)
    } else if is_tok(p, i, kw.repeat) && t == Some(Obligation::Procedure) {
        open_loop(c, m, Obligation::Repeat, "expected: repeat {"@)
    } else if is_tok(p, i, kw.rbrace) && t == Some(Obligation::Repeat) {
        close_repeat(c, m)
    } else if is_tok(p, i, kw.execute) && t == Some(Obligation::Procedure) {
        open_loop(c, m, Obligation::Execute, "expected: execute {"@)
    } else if is_tok(p, i, kw.rbrace) && t == Some(Obligation::Execute) {
        close_execute(c, m)
    } else if (is_tok(p, i, kw.get) || is_tok(p, i, kw.put)) && body {
        io_list(c, m)
    } else if is_tok(p, i, kw.set) && body {
        assignment(c, m)
    } else if t == Some(Obligation::Math) {
        expression(c, m)
    } else if t == Some(Obligation::SetEnd) {
        set_end(c, m)
    } else if t == Some(Obligation::Condition) {
        condition(c, m)
    } else if t == Some(Obligation::ConditionEnd) {
        condition_end(c, m)
    } else if t == Some(Obligation::Operator) {
        operator(c, m)
    } else {
        goto(m, i + 1)
    }
}

/// What is left to do: each point weighs more than the obligations any one
/// step can push.
pub open spec fn measure(c: Ctx, m: Model) -> int {
    8 * (c.points.len() - m.cursor) + m.stack.len()
}

/// Steps until the cursor has passed the last point.
pub open spec fn run(c: Ctx, m: Model) -> Model
    decreases measure(c, m),
    when 0 <= m.cursor <= c.points.len()
    via run_decreases
{
    if 0 <= m.cursor < c.points.len() {
        run(c, step(c, m))
    } else {
        m
    }
}

#[via_fn]
proof fn run_decreases(c: Ctx, m: Model) {
    if 0 <= m.cursor < c.points.len() {
        lemma_step_progress(c, m);
    }
}

pub proof fn lemma_decl_scan(p: Seq<PointView>, kw: Keywords, k: int, ph: DeclPhase, refs: Seq<usize>)
    requires
        0 <= k <= p.len(),
    ensures
        k <= decl_scan(p, kw, k, ph, refs).0 <= p.len(),
        k < p.len() ==> k < decl_scan(p, kw, k, ph, refs).0,
    decreases p.len() - k,
{
    if k < p.len() {
        lemma_decl_scan(p, kw, k + 1, DeclPhase::Sep, refs.push(k as usize));
        lemma_decl_scan(p, kw, k + 1, DeclPhase::Type, refs);
        lemma_decl_scan(p, kw, k + 1, DeclPhase::Semi, refs.push(k as usize));
        lemma_decl_scan(p, kw, k + 1, DeclPhase::Skip, refs);
        lemma_decl_scan(p, kw, k + 1, DeclPhase::Sep, refs);
        lemma_decl_scan(p, kw, k + 1, DeclPhase::Name, refs);
    }
}

pub proof fn lemma_list_scan(p: Seq<PointView>, kw: Keywords, k: int, ph: ListPhase, refs: Seq<usize>)
    requires
        0 <= k < p.len(),
    ensures
        k < list_scan(p, kw, k, ph, refs).0 <= p.len(),
    decreases p.len() - k,
{
    if k + 1 < p.len() {
        lemma_list_scan(p, kw, k + 1, ListPhase::Sep, refs.push((k + 1) as usize));
        lemma_list_scan(p, kw, k + 1, ListPhase::Name, refs);
        lemma_list_scan(p, kw, k + 1, ListPhase::Skip, refs);
    }
}

proof fn lemma_reduce_single(prec: Map<i16, Map<i16, Precedence>>, frags: Seq<Frag>)
    requires
        frags.len() == 1,
    ensures
        reduce(prec, frags) == (frags, false),
{
}

pub proof fn lemma_expr_loop(c: Ctx, table: Map<i16, Token>, mt: Option<Kind>, frags: Seq<Frag>, k: int, msg: Seq<char>)
    requires
        0 <= k < c.points.len(),
        frags.len() == 1,
    ensures
        k < expr_loop(c, table, mt, frags, k, msg).1 <= c.points.len(),
{
    lemma_reduce_single(c.prec, frags);
    match shifted(c, table, mt, k) {
        Ok(f) => lemma_expr_loop_bound(c, table, mt, frags.push(f), k + 1, msg),
        Err(e) => {},
    }
}

proof fn lemma_expr_loop_bound(c: Ctx, table: Map<i16, Token>, mt: Option<Kind>, frags: Seq<Frag>, k: int, msg: Seq<char>)
    requires
        0 <= k <= c.points.len(),
    ensures
        k <= expr_loop(c, table, mt, frags, k, msg).1 <= c.points.len(),
    decreases c.points.len() - k,
{
    if k < c.points.len() {
        let r = reduce(c.prec, frags);
        if !r.1 {
            match shifted(c, table, mt, k) {
                Ok(f) => lemma_expr_loop_bound(c, table, mt, r.0.push(f), k + 1, msg),
                Err(e) => {},
            }
        }
    }
}

/// How many more references an accepted declaration scan collects from phase `ph`.
pub open spec fn decl_refs_needed(ph: DeclPhase) -> int {
    match ph {
        DeclPhase::Name => 2,
        DeclPhase::Sep => 1,
        DeclPhase::Type => 1,
        _ => 0,
    }
}

pub proof fn lemma_decl_refs(p: Seq<PointView>, kw: Keywords, k: int, ph: DeclPhase, refs: Seq<usize>)
    ensures
        decl_scan(p, kw, k, ph, refs).1 ==> decl_scan(p, kw, k, ph, refs).2.len() >= refs.len() + decl_refs_needed(ph),
        refs.len() <= decl_scan(p, kw, k, ph, refs).2.len(),
        decl_scan(p, kw, k, ph, refs).2.subrange(0, refs.len() as int) == refs,
        ph is Skip ==> !decl_scan(p, kw, k, ph, refs).1,
    decreases p.len() - k,
{
    if 0 <= k < p.len() {
        let pushed = refs.push(k as usize);
        assert(pushed.subrange(0, refs.len() as int) =~= refs);
        match ph {
            DeclPhase::Name => {
                lemma_decl_refs(p, kw, k + 1, DeclPhase::Sep, pushed);
                let r = decl_scan(p, kw, k + 1, DeclPhase::Sep, pushed).2;
                assert(decl_scan(p, kw, k, ph, refs) == decl_scan(p, kw, k + 1, DeclPhase::Sep, pushed));
                assert(r.subrange(0, refs.len() as int) =~= r.subrange(0, pushed.len() as int).subrange(0, refs.len() as int));
            },
            DeclPhase::Sep => {
                lemma_decl_refs(p, kw, k + 1, DeclPhase::Name, refs);
                lemma_decl_refs(p, kw, k + 1, DeclPhase::Type, refs);
                lemma_decl_refs(p, kw, k + 1, DeclPhase::Skip, refs);
            },
            DeclPhase::Type => {
                lemma_decl_refs(p, kw, k + 1, DeclPhase::Semi, pushed);
                let r = decl_scan(p, kw, k + 1, DeclPhase::Semi, pushed).2;
                assert(r.subrange(0, refs.len() as int) =~= r.subrange(0, pushed.len() as int).subrange(0, refs.len() as int));
            },
            DeclPhase::Semi => {
                lemma_decl_refs(p, kw, k + 1, DeclPhase::Skip, refs);
                assert(refs.subrange(0, refs.len() as int) =~= refs);
            },
            DeclPhase::Skip => {
                lemma_decl_refs(p, kw, k + 1, DeclPhase::Skip, refs);
                assert(refs.subrange(0, refs.len() as int) =~= refs);
            },
        }
    } else {
        assert(refs.subrange(0, refs.len() as int) =~= refs);
    }
}

pub proof fn lemma_list_refs(p: Seq<PointView>, kw: Keywords, k: int, ph: ListPhase, refs: Seq<usize>)
    ensures
        list_scan(p, kw, k, ph, refs).1 is Accepted && ph is Name ==> list_scan(p, kw, k, ph, refs).2.len() >= 1,
        ph is Skip ==> !(list_scan(p, kw, k, ph, refs).1 is Accepted),
        forall|j: int| 0 <= j < list_scan(p, kw, k, ph, refs).2.len() ==> {
            ||| #[trigger] list_scan(p, kw, k, ph, refs).2[j] < p.len()
            ||| (j < refs.len() && list_scan(p, kw, k, ph, refs).2[j] == refs[j])
        },
        refs.len() <= list_scan(p, kw, k, ph, refs).2.len(),
        ph is Sep && refs.len() >= 1 ==> list_scan(p, kw, k, ph, refs).2.len() >= 1,
    decreases p.len() - k,
{
    if 0 <= k && k + 1 < p.len() {
        let k1 = k + 1;
        let pushed = refs.push(k1 as usize);
        lemma_list_refs(p, kw, k1, ListPhase::Sep, pushed);
        lemma_list_refs(p, kw, k1, ListPhase::Name, refs);
        lemma_list_refs(p, kw, k1, ListPhase::Skip, refs);
    }
}

/// Each step keeps the cursor within the points and lowers the measure.
#[verifier::rlimit(50)]
pub proof fn lemma_step_progress(c: Ctx, m: Model)
    requires
        0 <= m.cursor < c.points.len(),
    ensures
        0 <= step(c, m).cursor <= c.points.len(),
        measure(c, step(c, m)) < measure(c, m),
{
    let p = c.points;
    let i = m.cursor;
    let kw = c.kw;
    let t = top(m);
    let body = t == Some(Obligation::Procedure) || t == Some(Obligation::Repeat);
    if t is None && is_tok(p, i, kw.data) {
    } else if is_tok(p, i, kw.end) && t == Some(Obligation::Data) {
    } else if t is None && is_tok(p, i, kw.procedure) {
    } else if is_tok(p, i, kw.end) && t == Some(Obligation::Procedure) {
    } else if t == Some(Obligation::Data) {
        lemma_decl_scan(p, c.kw, i, DeclPhase::Name, Seq::empty());
        assert(step(c, m) == declaration(c, m));
    } else if is_tok(p, i, kw.repeat) && t == Some(Obligation::Procedure) {
    } else if is_tok(p, i, kw.rbrace) && t == Some(Obligation::Repeat) {
        assert(step(c, m) == close_repeat(c, m));
    } else if is_tok(p, i, kw.execute) && t == Some(Obligation::Procedure) {
    } else if is_tok(p, i, kw.rbrace) && t == Some(Obligation::Execute) {
        assert(step(c, m) == close_execute(c, m));
    } else if (is_tok(p, i, kw.get) || is_tok(p, i, kw.put)) && body {
        lemma_list_scan(p, c.kw, i, ListPhase::Name, Seq::empty());
        assert(step(c, m) == io_list(c, m));
    } else if is_tok(p, i, kw.set) && body {
        assert(step(c, m) == assignment(c, m));
    } else if t == Some(Obligation::Math) {
        lemma_expr_loop(c, m.table, wanted_kind(top(pop(m))), seq![Frag::single(Label::Mark(c.kw.start))], i, Seq::empty());
        assert(step(c, m) == expression(c, m));
    } else if t == Some(Obligation::SetEnd) {
    } else if t == Some(Obligation::Condition) {
        assert(step(c, m) == condition(c, m));
    } else if t == Some(Obligation::ConditionEnd) {
        assert(step(c, m) == condition_end(c, m));
    } else if t == Some(Obligation::Operator) {
    } else {
    }
}

} // verus!
