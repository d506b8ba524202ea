//! Properties of the scanner, the merge and the parser.
use vstd::prelude::*;
use crate::entities::{views, FPoint, Token};
use crate::merge::merged_lines;
use crate::entities::{merged, parsed, Kind, PointView, Precedence, StateView};
use crate::grammar::{keywords_spec, precedence_spec, Keywords};
use crate::fragment::{Frag, Label};
use crate::parser::{after_header, name_program, parse_spec};
use crate::grammar::Obligation;
use crate::machine::{
    accepted, first_io_fault, io_list, io_outcome, list_scan, pop, wanted_kind, all_tokens, assignment, declaration, declare_all, end_scope, open_division, operand_points, expr_loop, reduce, set_end, shifted, decl_fault, decl_outcome, decl_scan, emit, err_span, expression, first_decl_fault,
    goto, is_tok, lemma_step_progress, operand_kind, relation, role, run, step, syms_of, top, type_named, variable_kind, Ctx, DeclPhase, ListEnd, ListPhase, Model,
};

verus! {

proof fn lemma_comment_interior(lines: Seq<(Vec<FPoint>, Vec<(i16, Token)>, i8)>, table: Map<i16, Token>, n: int, j: int)
    requires
        0 <= n < j <= lines.len(),
        lines[n].2 > 0,
        forall|k: int| n < k < j ==> #[trigger] lines[k].2 >= 0,
    ensures
        merged_lines(lines.subrange(0, j), table).0 == merged_lines(lines.subrange(0, n + 1), table).0,
        merged_lines(lines.subrange(0, j), table).1 == merged_lines(lines.subrange(0, n + 1), table).1,
        merged_lines(lines.subrange(0, j), table).2,
    decreases j - n,
{
    assert(lines.subrange(0, j).drop_last() =~= lines.subrange(0, j - 1));
    if j > n + 1 {
        lemma_comment_interior(lines, table, n, j - 1);
    }
}

/// A block comment opened on line `n` and closed on line `m`, with no line
/// between them closing one, keeps every line strictly between them out of
/// the output and out of the symbol table; line `m` contributes what its scan
/// kept after the close.
pub proof fn law_block_comment_excluded(lines: Seq<(Vec<FPoint>, Vec<(i16, Token)>, i8)>, table: Map<i16, Token>, n: int, m: int)
    requires
        0 <= n < m < lines.len(),
        lines[n].2 > 0,
        lines[m].2 < 0,
        forall|k: int| n < k < m ==> #[trigger] lines[k].2 >= 0,
    ensures
        merged_lines(lines.subrange(0, m), table).0 == merged_lines(lines.subrange(0, n + 1), table).0,
        merged_lines(lines.subrange(0, m), table).1 == merged_lines(lines.subrange(0, n + 1), table).1,
        merged_lines(lines.subrange(0, m + 1), table).0 == merged_lines(lines.subrange(0, n + 1), table).0 + views(lines[m].0@),
{
    lemma_comment_interior(lines, table, n, m);
    assert(lines.subrange(0, m + 1).drop_last() =~= lines.subrange(0, m));
}

/// The scan of the declaration clause at the cursor.
pub open spec fn clause_scan(c: Ctx, m: Model) -> (int, bool, Seq<usize>) {
    decl_scan(c.points, c.kw, m.cursor, DeclPhase::Name, Seq::empty())
}

/// The names that the declaration clause at the cursor declares.
pub open spec fn clause_names(c: Ctx, m: Model) -> Seq<i16> {
    syms_of(c.points, clause_scan(c, m).2).drop_last()
}

proof fn lemma_first_fault_is_redefine(table: Map<i16, Token>, names: Seq<i16>, idx: int, a: int)
    requires
        0 <= idx <= a < names.len(),
        decl_fault(table, names, a) is Some,
        forall|j: int| 0 <= j < names.len() ==> !(#[trigger] role(table, names[j]) is Pred) && !(role(table, names[j]) is Lit),
    ensures
        first_decl_fault(table, names, idx) == Some("cannot redefine variables"@),
    decreases a - idx,
{
    if decl_fault(table, names, idx) is None {
        lemma_first_fault_is_redefine(table, names, idx + 1, a);
    } else {
        assert(!(role(table, names[idx]) is Pred) && !(role(table, names[idx]) is Lit));
    }
}

proof fn lemma_first_fault_some(table: Map<i16, Token>, names: Seq<i16>, idx: int, a: int)
    requires
        0 <= idx <= a < names.len(),
        decl_fault(table, names, a) is Some,
    ensures
        first_decl_fault(table, names, idx) is Some,
    decreases a - idx,
{
    if decl_fault(table, names, idx) is None {
        lemma_first_fault_some(table, names, idx + 1, a);
    }
}

/// In a data division, a well-formed declaration clause that re-declares a
/// variable (one already declared, or one named twice in the clause) becomes
/// one error point "cannot redefine variables", whatever the declared type,
/// and leaves the symbol table as it was. The clause names nothing
/// predefined or literal, whose fault would be reported instead.
pub proof fn law_redeclaration_rejected(c: Ctx, m: Model, a: int)
    requires
        0 <= m.cursor < c.points.len(),
        top(m) == Some(Obligation::Data),
        !is_tok(c.points, m.cursor, c.kw.end),
        clause_scan(c, m).1,
        all_tokens(c.points, clause_scan(c, m).2),
        type_named(c.kw, syms_of(c.points, clause_scan(c, m).2).last()) is Some,
        0 <= a < clause_names(c, m).len(),
        role(m.table, clause_names(c, m)[a]) is Var
            || exists|b: int| 0 <= b < a && clause_names(c, m)[b] == clause_names(c, m)[a],
        forall|j: int| 0 <= j < clause_names(c, m).len()
            ==> !(#[trigger] role(m.table, clause_names(c, m)[j]) is Pred) && !(role(m.table, clause_names(c, m)[j]) is Lit),
    ensures
        step(c, m) == goto(emit(m, err_span(c.points, m.cursor, clause_scan(c, m).0, "cannot redefine variables"@)), clause_scan(c, m).0),
{
    lemma_first_fault_is_redefine(m.table, clause_names(c, m), 0, a);
}

/// In a data division, a well-formed declaration clause that names a
/// predefined symbol is rejected: it becomes one error point and the symbol
/// table is left as it was.
pub proof fn law_predefined_rejected(c: Ctx, m: Model, a: int)
    requires
        0 <= m.cursor < c.points.len(),
        top(m) == Some(Obligation::Data),
        !is_tok(c.points, m.cursor, c.kw.end),
        clause_scan(c, m).1,
        all_tokens(c.points, clause_scan(c, m).2),
        0 <= a < clause_names(c, m).len(),
        role(m.table, clause_names(c, m)[a]) is Pred,
    ensures
        decl_outcome(c, m) is Err,
        step(c, m) == goto(emit(m, err_span(c.points, m.cursor, clause_scan(c, m).0, decl_outcome(c, m)->Err_0)), clause_scan(c, m).0),
        step(c, m).table == m.table,
{
    lemma_first_fault_some(m.table, clause_names(c, m), 0, a);
}

/// `set <var> to` followed by a literal or variable of another kind than the
/// variable's: the expression is refused with "wrong type of variable or
/// literal", never coerced, and the symbol table is left as it was. The
/// start and accept labels of the precedence table have distinct keys.
pub proof fn law_set_kind_mismatch(c: Ctx, m: Model, k: Kind, k2: Kind)
    requires
        0 <= m.cursor,
        m.cursor + 5 <= c.points.len(),
        variable_kind(c.points, m.cursor + 1, m.table) == Some(k),
        is_tok(c.points, m.cursor + 2, c.kw.to),
        operand_kind(c.points, m.cursor + 3, m.table) == Some(k2),
        k2 != k,
        c.kw.start != c.kw.accept,
    ensures
        ({
            let m2 = expression(c, assignment(c, m));
            &&& m2.out.last().state == StateView::Error("wrong type of variable or literal"@)
            &&& m2.table == m.table
        }),
{
}

/// `k` differs from every key of `ks`.
pub open spec fn differs_from_all(k: i16, ks: Seq<i16>) -> bool {
    forall|j: int| 0 <= j < ks.len() ==> ks[j] != k
}

/// The keys that parsing a program of declarations and assignments
/// dispatches on are pairwise distinct (16-bit keys can collide).
pub open spec fn distinct_keys(kw: Keywords) -> bool {
    &&& differs_from_all(kw.semicolon, seq![kw.colon, kw.comma, kw.data, kw.division, kw.end, kw.procedure, kw.integer, kw.float, kw.char_kw, kw.set, kw.to, kw.get, kw.put, kw.repeat, kw.execute, kw.rbrace, kw.plus, kw.minus, kw.star, kw.slash, kw.lparen, kw.rparen, kw.start, kw.accept, kw.id, kw.e_semi, kw.e_plus, kw.e_star, kw.e_close])
    &&& differs_from_all(kw.colon, seq![kw.comma, kw.data, kw.division, kw.end, kw.procedure, kw.integer, kw.float, kw.char_kw, kw.set, kw.to, kw.get, kw.put, kw.repeat, kw.execute, kw.rbrace, kw.plus, kw.minus, kw.star, kw.slash, kw.lparen, kw.rparen, kw.start, kw.accept, kw.id, kw.e_semi, kw.e_plus, kw.e_star, kw.e_close])
    &&& differs_from_all(kw.comma, seq![kw.data, kw.division, kw.end, kw.procedure, kw.integer, kw.float, kw.char_kw, kw.set, kw.to, kw.get, kw.put, kw.repeat, kw.execute, kw.rbrace, kw.plus, kw.minus, kw.star, kw.slash, kw.lparen, kw.rparen, kw.start, kw.accept, kw.id, kw.e_semi, kw.e_plus, kw.e_star, kw.e_close])
    &&& differs_from_all(kw.data, seq![kw.division, kw.end, kw.procedure, kw.integer, kw.float, kw.char_kw, kw.set, kw.to, kw.get, kw.put, kw.repeat, kw.execute, kw.rbrace, kw.plus, kw.minus, kw.star, kw.slash, kw.lparen, kw.rparen, kw.start, kw.accept, kw.id, kw.e_semi, kw.e_plus, kw.e_star, kw.e_close])
    &&& differs_from_all(kw.division, seq![kw.end, kw.procedure, kw.integer, kw.float, kw.char_kw, kw.set, kw.to, kw.get, kw.put, kw.repeat, kw.execute, kw.rbrace, kw.plus, kw.minus, kw.star, kw.slash, kw.lparen, kw.rparen, kw.start, kw.accept, kw.id, kw.e_semi, kw.e_plus, kw.e_star, kw.e_close])
    &&& differs_from_all(kw.end, seq![kw.procedure, kw.integer, kw.float, kw.char_kw, kw.set, kw.to, kw.get, kw.put, kw.repeat, kw.execute, kw.rbrace, kw.plus, kw.minus, kw.star, kw.slash, kw.lparen, kw.rparen, kw.start, kw.accept, kw.id, kw.e_semi, kw.e_plus, kw.e_star, kw.e_close])
    &&& differs_from_all(kw.procedure, seq![kw.integer, kw.float, kw.char_kw, kw.set, kw.to, kw.get, kw.put, kw.repeat, kw.execute, kw.rbrace, kw.plus, kw.minus, kw.star, kw.slash, kw.lparen, kw.rparen, kw.start, kw.accept, kw.id, kw.e_semi, kw.e_plus, kw.e_star, kw.e_close])
    &&& differs_from_all(kw.integer, seq![kw.float, kw.char_kw, kw.set, kw.to, kw.get, kw.put, kw.repeat, kw.execute, kw.rbrace, kw.plus, kw.minus, kw.star, kw.slash, kw.lparen, kw.rparen, kw.start, kw.accept, kw.id, kw.e_semi, kw.e_plus, kw.e_star, kw.e_close])
    &&& differs_from_all(kw.float, seq![kw.char_kw, kw.set, kw.to, kw.get, kw.put, kw.repeat, kw.execute, kw.rbrace, kw.plus, kw.minus, kw.star, kw.slash, kw.lparen, kw.rparen, kw.start, kw.accept, kw.id, kw.e_semi, kw.e_plus, kw.e_star, kw.e_close])
    &&& differs_from_all(kw.char_kw, seq![kw.set, kw.to, kw.get, kw.put, kw.repeat, kw.execute, kw.rbrace, kw.plus, kw.minus, kw.star, kw.slash, kw.lparen, kw.rparen, kw.start, kw.accept, kw.id, kw.e_semi, kw.e_plus, kw.e_star, kw.e_close])
    &&& differs_from_all(kw.set, seq![kw.to, kw.get, kw.put, kw.repeat, kw.execute, kw.rbrace, kw.plus, kw.minus, kw.star, kw.slash, kw.lparen, kw.rparen, kw.start, kw.accept, kw.id, kw.e_semi, kw.e_plus, kw.e_star, kw.e_close])
    &&& differs_from_all(kw.to, seq![kw.get, kw.put, kw.repeat, kw.execute, kw.rbrace, kw.plus, kw.minus, kw.star, kw.slash, kw.lparen, kw.rparen, kw.start, kw.accept, kw.id, kw.e_semi, kw.e_plus, kw.e_star, kw.e_close])
    &&& differs_from_all(kw.get, seq![kw.put, kw.repeat, kw.execute, kw.rbrace, kw.plus, kw.minus, kw.star, kw.slash, kw.lparen, kw.rparen, kw.start, kw.accept, kw.id, kw.e_semi, kw.e_plus, kw.e_star, kw.e_close])
    &&& differs_from_all(kw.put, seq![kw.repeat, kw.execute, kw.rbrace, kw.plus, kw.minus, kw.star, kw.slash, kw.lparen, kw.rparen, kw.start, kw.accept, kw.id, kw.e_semi, kw.e_plus, kw.e_star, kw.e_close])
    &&& differs_from_all(kw.repeat, seq![kw.execute, kw.rbrace, kw.plus, kw.minus, kw.star, kw.slash, kw.lparen, kw.rparen, kw.start, kw.accept, kw.id, kw.e_semi, kw.e_plus, kw.e_star, kw.e_close])
    &&& differs_from_all(kw.execute, seq![kw.rbrace, kw.plus, kw.minus, kw.star, kw.slash, kw.lparen, kw.rparen, kw.start, kw.accept, kw.id, kw.e_semi, kw.e_plus, kw.e_star, kw.e_close])
    &&& differs_from_all(kw.rbrace, seq![kw.plus, kw.minus, kw.star, kw.slash, kw.lparen, kw.rparen, kw.start, kw.accept, kw.id, kw.e_semi, kw.e_plus, kw.e_star, kw.e_close])
    &&& differs_from_all(kw.plus, seq![kw.minus, kw.star, kw.slash, kw.lparen, kw.rparen, kw.start, kw.accept, kw.id, kw.e_semi, kw.e_plus, kw.e_star, kw.e_close])
    &&& differs_from_all(kw.minus, seq![kw.star, kw.slash, kw.lparen, kw.rparen, kw.start, kw.accept, kw.id, kw.e_semi, kw.e_plus, kw.e_star, kw.e_close])
    &&& differs_from_all(kw.star, seq![kw.slash, kw.lparen, kw.rparen, kw.start, kw.accept, kw.id, kw.e_semi, kw.e_plus, kw.e_star, kw.e_close])
    &&& differs_from_all(kw.slash, seq![kw.lparen, kw.rparen, kw.start, kw.accept, kw.id, kw.e_semi, kw.e_plus, kw.e_star, kw.e_close])
    &&& differs_from_all(kw.lparen, seq![kw.rparen, kw.start, kw.accept, kw.id, kw.e_semi, kw.e_plus, kw.e_star, kw.e_close])
    &&& differs_from_all(kw.rparen, seq![kw.start, kw.accept, kw.id, kw.e_semi, kw.e_plus, kw.e_star, kw.e_close])
    &&& differs_from_all(kw.start, seq![kw.accept, kw.id, kw.e_semi, kw.e_plus, kw.e_star, kw.e_close])
    &&& differs_from_all(kw.accept, seq![kw.id, kw.e_semi, kw.e_plus, kw.e_star, kw.e_close])
    &&& differs_from_all(kw.id, seq![kw.e_semi, kw.e_plus, kw.e_star, kw.e_close])
    &&& differs_from_all(kw.e_semi, seq![kw.e_plus, kw.e_star, kw.e_close])
    &&& differs_from_all(kw.e_plus, seq![kw.e_star, kw.e_close])
    &&& differs_from_all(kw.e_star, seq![kw.e_close])
}

/// The precedence relations that reduce a single operand followed by `;`.
pub open spec fn reduces_operand(kw: Keywords, prec: Map<i16, Map<i16, Precedence>>) -> bool {
    &&& relation(prec, kw.start, kw.id) == Some(Precedence::Lesser)
    &&& relation(prec, kw.id, kw.semicolon) == Some(Precedence::Needs(kw.e_semi))
    &&& relation(prec, kw.start, kw.e_semi) == Some(Precedence::Needs(kw.accept))
}

/// The standard precedence table reduces a single operand followed by `;`.
pub proof fn lemma_standard_reduces_operand(kw: Keywords)
    requires
        distinct_keys(kw),
    ensures
        reduces_operand(kw, precedence_spec(kw)),
{
}

pub open spec fn no_errors(s: Seq<PointView>) -> bool {
    forall|j: int| 0 <= j < s.len() ==> !(#[trigger] s[j].state is Error)
}

/// Where the `j`-th declaration of a program starts.
pub open spec fn decl_pos(j: int) -> int {
    6 + 4 * j
}

/// The number of points of the first `j` statements: an assignment takes
/// five, a `get` or `put` of one variable three.
pub open spec fn stmt_span(kw: Keywords, ops: Seq<i16>, j: int) -> int
    decreases j,
{
    if j <= 0 {
        0
    } else {
        stmt_span(kw, ops, j - 1) + if ops[j - 1] == kw.set { 5int } else { 3int }
    }
}

proof fn lemma_span_grows(kw: Keywords, ops: Seq<i16>, j: int, k: int)
    requires
        0 <= j <= k,
    ensures
        stmt_span(kw, ops, j) <= stmt_span(kw, ops, k),
    decreases k - j,
{
    if j < k {
        lemma_span_grows(kw, ops, j, k - 1);
    }
}

/// Where the `j`-th statement of a program with `d` declarations starts.
pub open spec fn stmt_pos(kw: Keywords, d: int, ops: Seq<i16>, j: int) -> int {
    11 + 4 * d + stmt_span(kw, ops, j)
}

/// `program N ; data division ; (x : T ;)* end ; procedure division ; S* end ;`
/// where each statement `S` is `set y to v ;`, `get y ;` or `put y ;`: the
/// names `xs` and types `ts` of the declarations, and the heads `ops`,
/// variables `ys` and values `vs` of the statements.
pub open spec fn program_shape(p: Seq<PointView>, kw: Keywords, xs: Seq<i16>, ts: Seq<i16>, ops: Seq<i16>, ys: Seq<i16>, vs: Seq<i16>) -> bool {
    let d = xs.len() as int;
    let s = ys.len() as int;
    &&& ts.len() == d
    &&& vs.len() == s
    &&& ops.len() == s
    &&& p.len() == 13 + 4 * d + stmt_span(kw, ops, s)
    &&& is_tok(p, 0, kw.program) && is_tok(p, 2, kw.semicolon)
    &&& is_tok(p, 3, kw.data) && is_tok(p, 4, kw.division) && is_tok(p, 5, kw.semicolon)
    &&& forall|j: int| 0 <= j < d ==> {
        &&& is_tok(p, decl_pos(j), #[trigger] xs[j])
        &&& is_tok(p, decl_pos(j) + 1, kw.colon)
        &&& is_tok(p, decl_pos(j) + 2, ts[j])
        &&& is_tok(p, decl_pos(j) + 3, kw.semicolon)
    }
    &&& is_tok(p, decl_pos(d), kw.end) && is_tok(p, decl_pos(d) + 1, kw.semicolon)
    &&& is_tok(p, decl_pos(d) + 2, kw.procedure) && is_tok(p, decl_pos(d) + 3, kw.division)
    &&& is_tok(p, decl_pos(d) + 4, kw.semicolon)
    &&& forall|j: int| 0 <= j < s ==> {
        let at = stmt_pos(kw, d, ops, j);
        &&& is_tok(p, at, ops[j])
        &&& is_tok(p, at + 1, #[trigger] ys[j])
        &&& if ops[j] == kw.set {
            &&& is_tok(p, at + 2, kw.to)
            &&& is_tok(p, at + 3, vs[j])
            &&& is_tok(p, at + 4, kw.semicolon)
        } else {
            &&& (ops[j] == kw.get || ops[j] == kw.put)
            &&& is_tok(p, at + 2, kw.semicolon)
        }
    }
    &&& is_tok(p, stmt_pos(kw, d, ops, s), kw.end) && is_tok(p, stmt_pos(kw, d, ops, s) + 1, kw.semicolon)
}

/// The table after the first `j` declarations.
pub open spec fn decl_table(t: Map<i16, Token>, kw: Keywords, xs: Seq<i16>, ts: Seq<i16>, j: int) -> Map<i16, Token>
    decreases j,
{
    if j <= 0 {
        t
    } else {
        decl_table(t, kw, xs, ts, j - 1).insert(xs[j - 1], Token::Var(type_named(kw, ts[j - 1])->0))
    }
}

/// The program's declarations are of fresh, distinct names with known
/// types, every statement names a declared variable, and each assignment
/// gives it a value of its kind.
pub open spec fn program_valid(p: Seq<PointView>, kw: Keywords, t0: Map<i16, Token>, xs: Seq<i16>, ts: Seq<i16>, ops: Seq<i16>, ys: Seq<i16>, vs: Seq<i16>) -> bool {
    let th = name_program(p, t0);
    let td = decl_table(th, kw, xs, ts, xs.len() as int);
    &&& forall|j: int| 0 <= j < xs.len() ==> {
        &&& #[trigger] role(th, xs[j]) is Und
        &&& xs[j] != kw.end
        &&& type_named(kw, ts[j]) is Some
    }
    &&& forall|a: int, b: int| 0 <= a < b < xs.len() ==> xs[a] != xs[b]
    &&& forall|j: int| 0 <= j < ys.len() ==> {
        &&& #[trigger] role(td, ys[j]) is Var
        &&& ops[j] == kw.set ==> (role(td, vs[j]) is Var || role(td, vs[j]) is Lit)
        &&& ops[j] == kw.set ==> role(td, vs[j]).value_kind() == role(td, ys[j]).value_kind()
    }
    &&& role(td, kw.semicolon) is Pred
}

pub open spec fn clean(m: Model) -> bool {
    no_errors(m.out) && m.stack.len() == 0
}

proof fn lemma_run_step(c: Ctx, m: Model)
    requires
        0 <= m.cursor < c.points.len(),
    ensures
        run(c, m) == run(c, step(c, m)),
{
    lemma_step_progress(c, m);
}

proof fn lemma_no_errors_push(s: Seq<PointView>, x: PointView)
    requires
        no_errors(s),
        !(x.state is Error),
    ensures
        no_errors(s.push(x)),
{
    assert forall|j: int| 0 <= j < s.push(x).len() implies !(#[trigger] s.push(x)[j].state is Error) by {
        if j < s.len() {
            assert(s.push(x)[j] == s[j]);
        }
    }
}

proof fn lemma_final_end(c: Ctx, m: Model)
    requires
        distinct_keys(c.kw),
        0 <= m.cursor,
        c.points.len() == m.cursor + 2,
        is_tok(c.points, m.cursor, c.kw.end),
        is_tok(c.points, m.cursor + 1, c.kw.semicolon),
        m.stack == seq![Obligation::Procedure],
        no_errors(m.out),
    ensures
        clean(run(c, m)),
{
    lemma_run_step(c, m);
    let m1 = step(c, m);
    assert(m1.stack =~= Seq::<Obligation>::empty());
    lemma_no_errors_push(m.out, merged(c.points, m.cursor, m.cursor + 2, StateView::ParsedToken(c.kw.end)));
}

#[verifier::rlimit(60)]
proof fn lemma_stmts(c: Ctx, m: Model, xs: Seq<i16>, ts: Seq<i16>, ops: Seq<i16>, ys: Seq<i16>, vs: Seq<i16>, t0: Map<i16, Token>, j: int)
    requires
        distinct_keys(c.kw),
        reduces_operand(c.kw, c.prec),
        program_shape(c.points, c.kw, xs, ts, ops, ys, vs),
        program_valid(c.points, c.kw, t0, xs, ts, ops, ys, vs),
        0 <= j <= ys.len(),
        c.points.len() <= usize::MAX,
        m.cursor == stmt_pos(c.kw, xs.len() as int, ops, j),
        m.stack == seq![Obligation::Procedure],
        m.table == decl_table(name_program(c.points, t0), c.kw, xs, ts, xs.len() as int),
        no_errors(m.out),
    ensures
        clean(run(c, m)),
    decreases ys.len() - j,
{
    let d = xs.len() as int;
    let p = c.points;
    let kw = c.kw;
    if j < ys.len() {
        lemma_span_grows(kw, ops, j + 1, ys.len() as int);
    }
    if j == ys.len() {
        lemma_final_end(c, m);
    } else if ops[j] != kw.set {
        let i = m.cursor;
        assert(is_tok(p, stmt_pos(kw, d, ops, j) + 1, ys[j]));
        assert(role(m.table, ys[j]) is Var);
        lemma_run_step(c, m);
        let m1 = step(c, m);
        assert(m1 == io_list(c, m));
        let r1 = seq![(i + 1) as usize];
        assert(Seq::<usize>::empty().push((i + 1) as usize) =~= r1);
        assert(list_scan(p, kw, i + 1, ListPhase::Sep, r1) == (i + 2, ListEnd::Accepted, r1));
        assert(list_scan(p, kw, i, ListPhase::Name, Seq::empty()) == list_scan(p, kw, i + 1, ListPhase::Sep, r1));
        assert(p[i + 1].state is Token);
        assert(all_tokens(p, r1));
        assert(syms_of(p, r1) =~= seq![ys[j]]);
        assert(first_io_fault(m.table, seq![ys[j]], 1) is None);
        assert(first_io_fault(m.table, seq![ys[j]], 0) is None);
        assert(io_outcome(c, m) == Ok::<Seq<i16>, Seq<char>>(seq![ys[j]]));
        lemma_no_errors_push(m.out, parsed(p[i]));
        lemma_operand_points_clean(m.out.push(parsed(p[i])), p[i + 1].line, seq![ys[j]]);
        assert(m1.cursor == i + 2);
        assert(m1.stack == m.stack);
        lemma_run_step(c, m1);
        let m2 = step(c, m1);
        assert(m2 == goto(m1, i + 3));
        assert(stmt_span(kw, ops, j + 1) == stmt_span(kw, ops, j) + 3);
        lemma_stmts(c, m2, xs, ts, ops, ys, vs, t0, j + 1);
    } else {
        let i = m.cursor;
        assert(is_tok(p, stmt_pos(kw, d, ops, j) + 1, ys[j]));
        let k = role(m.table, ys[j])->Var_0;
        lemma_run_step(c, m);
        let m1 = step(c, m);
        assert(m1 == assignment(c, m));
        assert(variable_kind(p, i + 1, m.table) == Some(k));
        lemma_no_errors_push(m.out, parsed(p[i + 1]));
        lemma_no_errors_push(m.out.push(parsed(p[i + 1])), merged(p, i, i + 3, StateView::ParsedToken(kw.assign)));
        assert(m1.cursor == i + 3);
        assert(m1.stack == seq![Obligation::Procedure, Obligation::SetEnd, Obligation::Typed(k), Obligation::Math]);
        lemma_run_step(c, m1);
        let m2 = step(c, m1);
        assert(m2 == expression(c, m1));
        let leaf = Frag::single(Label::Leaf(kw.id, parsed(p[i + 3])));
        let semi = Frag::single(Label::Mark(kw.semicolon));
        let start = Frag::single(Label::Mark(kw.start));
        assert(is_tok(p, stmt_pos(kw, d, ops, j) + 3, vs[j]));
        assert(shifted(c, m1.table, Some(k), i + 3) == Ok::<Frag, Seq<char>>(leaf));
        assert(reduce(c.prec, seq![start]) == (seq![start], false));
        assert(reduce(c.prec, seq![start, leaf]) == (seq![start, leaf], false));
        assert(shifted(c, m1.table, Some(k), i + 4) == Ok::<Frag, Seq<char>>(semi));
        let e = Frag::single(Label::Mark(kw.e_semi)).add_right(semi).add_right(leaf);
        let top = Frag::single(Label::Mark(kw.accept)).add_right(e).add_right(start);
        assert(seq![start, leaf, semi].subrange(0, 1) =~= seq![start]);
        assert(seq![start].push(e) =~= seq![start, e]);
        assert(seq![start, e].subrange(0, 0) =~= Seq::<Frag>::empty());
        assert(Seq::<Frag>::empty().push(top) =~= seq![top]);
        assert(reduce(c.prec, seq![start, e]) == (seq![top], true));
        assert(reduce(c.prec, seq![start, leaf, semi]) == (seq![top], true));
        assert(seq![start].push(leaf) =~= seq![start, leaf]);
        assert(seq![start, leaf].push(semi) =~= seq![start, leaf, semi]);
        assert(expr_loop(c, m1.table, Some(k), seq![start, leaf, semi], i + 5, Seq::empty()) == (seq![top], i + 5, Seq::<char>::empty()));
        assert(expr_loop(c, m1.table, Some(k), seq![start, leaf], i + 4, Seq::empty()) == (seq![top], i + 5, Seq::<char>::empty()));
        assert(expr_loop(c, m1.table, Some(k), seq![start], i + 3, Seq::empty()) == (seq![top], i + 5, Seq::<char>::empty()));
        let pt = parsed(p[i + 3]);
        assert(leaf.flat() =~= seq![pt]) by {
            assert(leaf.left_flat() =~= Seq::<PointView>::empty());
            assert(leaf.right_flat() =~= Seq::<PointView>::empty());
            assert(leaf.own_flat() =~= seq![pt]);
        }
        let semi2 = semi.add_left(leaf);
        assert(semi2.flat() =~= seq![pt]) by {
            assert(semi2.left_flat() == leaf.flat());
            assert(semi2.own_flat() =~= Seq::<PointView>::empty());
            assert(semi2.right_flat() =~= Seq::<PointView>::empty());
        }
        assert(start.flat() =~= Seq::<PointView>::empty()) by {
            assert(start.left_flat() =~= Seq::<PointView>::empty());
            assert(start.right_flat() =~= Seq::<PointView>::empty());
            assert(start.own_flat() =~= Seq::<PointView>::empty());
        }
        assert(e == Frag { right: Some(Box::new(semi2)), ..Frag::single(Label::Mark(kw.e_semi)) });
        let e2 = e.add_left(start);
        assert(e2.flat() =~= seq![pt]) by {
            assert(e2.left_flat() == start.flat());
            assert(e2.own_flat() =~= Seq::<PointView>::empty());
            assert(e2.right_flat() == semi2.flat());
        }
        assert(top == Frag { right: Some(Box::new(e2)), ..Frag::single(Label::Mark(kw.accept)) });
        assert(top.flat() =~= seq![pt]) by {
            assert(top.left_flat() =~= Seq::<PointView>::empty());
            assert(top.own_flat() =~= Seq::<PointView>::empty());
            assert(top.right_flat() == e2.flat());
        }
        assert(no_errors(m1.out + top.flat())) by {
            lemma_no_errors_push(m1.out, parsed(p[i + 3]));
            assert(m1.out + top.flat() =~= m1.out.push(parsed(p[i + 3])));
        }
        assert(m2.cursor == i + 4);
        assert(m2.stack =~= seq![Obligation::Procedure, Obligation::SetEnd]);
        lemma_run_step(c, m2);
        let m3 = step(c, m2);
        assert(m3 == set_end(c, m2));
        lemma_no_errors_push(m2.out, parsed(p[i + 4]));
        assert(m3.stack =~= seq![Obligation::Procedure]);
        assert(stmt_span(kw, ops, j + 1) == stmt_span(kw, ops, j) + 5);
        assert(m3.cursor == stmt_pos(kw, d, ops, j + 1));
        lemma_stmts(c, m3, xs, ts, ops, ys, vs, t0, j + 1);
    }
}

proof fn lemma_decl_table_other(t: Map<i16, Token>, kw: Keywords, xs: Seq<i16>, ts: Seq<i16>, j: int, x: i16)
    requires
        0 <= j <= xs.len(),
        forall|a: int| 0 <= a < j ==> xs[a] != x,
    ensures
        role(decl_table(t, kw, xs, ts, j), x) == role(t, x),
    decreases j,
{
    if j > 0 {
        lemma_decl_table_other(t, kw, xs, ts, j - 1, x);
    }
}

proof fn lemma_operand_points_clean(s: Seq<PointView>, line: u32, names: Seq<i16>)
    requires
        no_errors(s),
    ensures
        no_errors(s + operand_points(line, names)),
{
    let o = operand_points(line, names);
    assert forall|j: int| 0 <= j < (s + o).len() implies !(#[trigger] (s + o)[j].state is Error) by {
        if j >= s.len() {
            assert((s + o)[j] == o[j - s.len()]);
        }
    }
}

#[verifier::rlimit(60)]
proof fn lemma_decls(c: Ctx, m: Model, xs: Seq<i16>, ts: Seq<i16>, ops: Seq<i16>, ys: Seq<i16>, vs: Seq<i16>, t0: Map<i16, Token>, j: int)
    requires
        distinct_keys(c.kw),
        reduces_operand(c.kw, c.prec),
        program_shape(c.points, c.kw, xs, ts, ops, ys, vs),
        program_valid(c.points, c.kw, t0, xs, ts, ops, ys, vs),
        0 <= j <= xs.len(),
        c.points.len() <= usize::MAX,
        m.cursor == decl_pos(j),
        m.stack == seq![Obligation::Data],
        m.table == decl_table(name_program(c.points, t0), c.kw, xs, ts, j),
        no_errors(m.out),
    ensures
        clean(run(c, m)),
    decreases xs.len() - j,
{
    let d = xs.len() as int;
    let p = c.points;
    let kw = c.kw;
    let i = m.cursor;
    lemma_run_step(c, m);
    let m1 = step(c, m);
    if j == d {
        assert(m1 == end_scope(c, m));
        lemma_no_errors_push(m.out, merged(p, i, i + 2, StateView::ParsedToken(kw.end)));
        assert(m1.stack =~= Seq::<Obligation>::empty());
        lemma_run_step(c, m1);
        let m2 = step(c, m1);
        assert(m2 == open_division(c, m1, kw.procedure, Obligation::Procedure, "expected: procedure division;"@));
        lemma_no_errors_push(m1.out, merged(p, i + 2, i + 5, StateView::ParsedToken(kw.procedure)));
        assert(m2.stack =~= seq![Obligation::Procedure]);
        lemma_stmts(c, m2, xs, ts, ops, ys, vs, t0, 0);
    } else {
        let th = name_program(p, t0);
        let x = xs[j];
        assert(is_tok(p, decl_pos(j), xs[j]));
        assert(role(th, xs[j]) is Und && x != kw.end && type_named(kw, ts[j]) is Some);
        assert(m1 == declaration(c, m));
        let r1 = seq![i as usize];
        let r2 = seq![i as usize, (i + 2) as usize];
        assert(Seq::<usize>::empty().push(i as usize) =~= r1);
        assert(r1.push((i + 2) as usize) =~= r2);
        assert(is_tok(p, i + 1, kw.colon) && !is_tok(p, i + 1, kw.comma));
        assert(is_tok(p, i + 3, kw.semicolon));
        assert(decl_scan(p, kw, i + 3, DeclPhase::Semi, r2) == (i + 4, true, r2));
        assert(decl_scan(p, kw, i + 2, DeclPhase::Type, r1) == decl_scan(p, kw, i + 3, DeclPhase::Semi, r2));
        assert(decl_scan(p, kw, i + 1, DeclPhase::Sep, r1) == decl_scan(p, kw, i + 2, DeclPhase::Type, r1));
        assert(decl_scan(p, kw, i, DeclPhase::Name, Seq::empty()) == decl_scan(p, kw, i + 1, DeclPhase::Sep, r1));
        let refs = r2;
        assert(p[i].state is Token && p[i + 2].state is Token);
        assert(all_tokens(p, refs));
        let syms = syms_of(p, refs);
        assert(syms =~= seq![x, ts[j]]);
        assert(syms.drop_last() =~= seq![x]);
        lemma_decl_table_other(th, kw, xs, ts, j, x);
        let kd = type_named(kw, ts[j])->0;
        assert(first_decl_fault(m.table, seq![x], 1) is None);
        assert(decl_fault(m.table, seq![x], 0) is None);
        assert(first_decl_fault(m.table, seq![x], 0) is None);
        assert(decl_outcome(c, m) == Ok::<(Seq<i16>, Kind), Seq<char>>((seq![x], kd)));
        assert(declare_all(m.table, seq![x], kd) == m.table.insert(x, Token::Var(kd))) by {
            assert(seq![x].drop_last() =~= Seq::<i16>::empty());
            assert(declare_all(m.table, Seq::<i16>::empty(), kd) == m.table);
            assert(seq![x].last() == x);
        }
        lemma_operand_points_clean(m.out, p[i].line, seq![x]);
        assert(m1.cursor == decl_pos(j + 1));
        assert(m1.table == decl_table(th, kw, xs, ts, j + 1));
        lemma_decls(c, m1, xs, ts, ops, ys, vs, t0, j + 1);
    }
}

/// A program of the form `program N ; data division ; (x : T ;)* end ;
/// procedure division ; S* end ;`, each statement `S` being `set y to v ;`,
/// `get y ;` or `put y ;`, whose declarations are of fresh, distinct names
/// with known types, whose statements name declared variables, and whose
/// assignments give them values of their own kind, parses with no error
/// point and no scope left open. The keys of the keywords and labels it uses are
/// distinct, the table holds `;` as predefined, and the precedence table is
/// the standard one.
pub proof fn law_valid_program_is_clean(points: Seq<PointView>, t0: Map<i16, Token>, xs: Seq<i16>, ts: Seq<i16>, ops: Seq<i16>, ys: Seq<i16>, vs: Seq<i16>)
    requires
        distinct_keys(keywords_spec()),
        points.len() <= usize::MAX,
        program_shape(points, keywords_spec(), xs, ts, ops, ys, vs),
        program_valid(points, keywords_spec(), t0, xs, ts, ops, ys, vs),
    ensures
        no_errors(parse_spec(points, t0, precedence_spec(keywords_spec())).0),
        !parse_spec(points, t0, precedence_spec(keywords_spec())).1,
{
    let kw = keywords_spec();
    let prec = precedence_spec(kw);
    lemma_standard_reduces_operand(kw);
    let c = Ctx { points, kw, prec };
    let m0 = after_header(points, t0);
    let th = name_program(points, t0);
    assert(no_errors(m0.out)) by {
        lemma_no_errors_push(Seq::empty(), merged(points, 0, 3, StateView::ParsedToken(kw.program)));
        assert(Seq::<PointView>::empty().push(merged(points, 0, 3, StateView::ParsedToken(kw.program))) =~= m0.out);
    }
    lemma_run_step(c, m0);
    let m1 = step(c, m0);
    assert(m1 == open_division(c, m0, kw.data, Obligation::Data, "expected: data division;"@));
    lemma_no_errors_push(m0.out, merged(points, 3, 6, StateView::ParsedToken(kw.data)));
    assert(m1.stack =~= seq![Obligation::Data]);
    assert(m1.table == decl_table(th, kw, xs, ts, 0));
    lemma_decls(c, m1, xs, ts, ops, ys, vs, t0, 0);
}

/// The points that shifting point `j` contributes to the fragments.
pub open spec fn shifted_flat(c: Ctx, table: Map<i16, Token>, mt: Option<Kind>, j: int) -> Seq<PointView> {
    match shifted(c, table, mt, j) {
        Ok(f) => f.flat(),
        Err(_) => Seq::empty(),
    }
}

/// The operand and operator points of `points[i..k]` in the order they are read.
pub open spec fn shifted_run(c: Ctx, table: Map<i16, Token>, mt: Option<Kind>, i: int, k: int) -> Seq<PointView>
    decreases k - i,
{
    if k <= i {
        Seq::empty()
    } else {
        shifted_run(c, table, mt, i, k - 1) + shifted_flat(c, table, mt, k - 1)
    }
}

/// The points of a stack of fragments, bottom first.
pub open spec fn flats(frags: Seq<Frag>) -> Seq<PointView>
    decreases frags.len(),
{
    if frags.len() == 0 {
        Seq::empty()
    } else {
        flats(frags.drop_last()) + frags.last().flat()
    }
}

pub open spec fn is_reduction_label(kw: Keywords, s: i16) -> bool {
    s == kw.e_semi || s == kw.e_close || s == kw.e_plus
}

/// A fragment that a `Greater` reduction may take as its top is a bare
/// label with nothing on its left.
pub open spec fn frag_ready(kw: Keywords, f: Frag) -> bool {
    is_reduction_label(kw, f.label.symbol()) ==> (f.label is Mark && f.left is None)
}

pub open spec fn all_ready(kw: Keywords, frags: Seq<Frag>) -> bool {
    forall|j: int| 0 <= j < frags.len() ==> frag_ready(kw, #[trigger] frags[j])
}

/// In the table, `Greater` only ever attaches below a reduction label.
pub open spec fn greater_onto_labels(kw: Keywords, prec: Map<i16, Map<i16, Precedence>>) -> bool {
    forall|a: i16, b: i16| #[trigger] relation(prec, a, b) == Some(Precedence::Greater) ==> is_reduction_label(kw, b)
}

pub proof fn lemma_standard_greater_onto_labels(kw: Keywords)
    requires
        distinct_keys(kw),
    ensures
        greater_onto_labels(kw, precedence_spec(kw)),
{
}

proof fn lemma_flat_add_left(t: Frag, s: Frag)
    ensures
        t.add_left(s).flat() == s.flat() + t.flat(),
    decreases t,
{
    match t.left {
        Some(l) => {
            lemma_flat_add_left(*l, s);
            assert(t.add_left(s).left_flat() == (*l).add_left(s).flat());
            assert(t.add_left(s).flat() =~= s.flat() + t.flat());
        },
        None => {
            assert(t.add_left(s).left_flat() == s.flat());
            assert(t.add_left(s).flat() =~= s.flat() + t.flat());
        },
    }
}

proof fn lemma_flat_add_right(t: Frag, s: Frag)
    requires
        t.label is Mark,
        t.left is None,
    ensures
        t.add_right(s).flat() == s.flat() + t.flat(),
        t.add_right(s).label == t.label,
        t.add_right(s).left is None,
{
    match t.right {
        Some(r) => {
            lemma_flat_add_left(*r, s);
            assert(t.add_right(s).flat() =~= s.flat() + t.flat());
        },
        None => {
            assert(t.add_right(s).flat() =~= s.flat() + t.flat());
        },
    }
}

proof fn lemma_flats_push(frags: Seq<Frag>, f: Frag)
    ensures
        flats(frags.push(f)) == flats(frags) + f.flat(),
{
    assert(frags.push(f).drop_last() =~= frags);
}

#[verifier::rlimit(40)]
proof fn lemma_reduce_keeps_order(kw: Keywords, prec: Map<i16, Map<i16, Precedence>>, frags: Seq<Frag>)
    requires
        greater_onto_labels(kw, prec),
        all_ready(kw, frags),
    ensures
        flats(reduce(prec, frags).0) == flats(frags),
        all_ready(kw, reduce(prec, frags).0),
    decreases frags.len(),
{
    if frags.len() > 1 {
        let n = frags.len();
        let snd = frags[n - 2];
        let fst = frags[n - 1];
        let rest = frags.subrange(0, n - 2);
        assert(frags =~= rest.push(snd).push(fst));
        lemma_flats_push(rest, snd);
        lemma_flats_push(rest.push(snd), fst);
        match relation(prec, snd.label.symbol(), fst.label.symbol()) {
            Some(Precedence::Greater) => {
                assert(frag_ready(kw, frags[n - 1]));
                lemma_flat_add_right(fst, snd);
                let next = rest.push(fst.add_right(snd));
                lemma_flats_push(rest, fst.add_right(snd));
                assert(all_ready(kw, next)) by {
                    assert forall|j: int| 0 <= j < next.len() implies frag_ready(kw, #[trigger] next[j]) by {
                        if j < n - 2 {
                            assert(next[j] == frags[j]);
                        }
                    }
                }
                lemma_reduce_keeps_order(kw, prec, next);
            },
            Some(Precedence::Needs(x)) => {
                let base = Frag::single(Label::Mark(x));
                lemma_flat_add_right(base, fst);
                lemma_flat_add_right(base.add_right(fst), snd);
                assert(base.flat() =~= Seq::<PointView>::empty()) by {
                    assert(base.left_flat() =~= Seq::<PointView>::empty());
                    assert(base.right_flat() =~= Seq::<PointView>::empty());
                    assert(base.own_flat() =~= Seq::<PointView>::empty());
                }
                let node = base.add_right(fst).add_right(snd);
                let next = rest.push(node);
                lemma_flats_push(rest, node);
                assert(all_ready(kw, next)) by {
                    assert forall|j: int| 0 <= j < next.len() implies frag_ready(kw, #[trigger] next[j]) by {
                        if j < n - 2 {
                            assert(next[j] == frags[j]);
                        }
                    }
                }
                if n != 2 {
                    lemma_reduce_keeps_order(kw, prec, next);
                }
            },
            _ => {},
        }
    }
}

proof fn lemma_expr_loop_keeps_order(c: Ctx, table: Map<i16, Token>, mt: Option<Kind>, frags: Seq<Frag>, k: int, msg: Seq<char>, i: int)
    requires
        distinct_keys(c.kw),
        greater_onto_labels(c.kw, c.prec),
        all_ready(c.kw, frags),
        i <= k,
        flats(frags) == shifted_run(c, table, mt, i, k),
    ensures
        flats(expr_loop(c, table, mt, frags, k, msg).0) == shifted_run(c, table, mt, i, expr_loop(c, table, mt, frags, k, msg).1),
    decreases c.points.len() - k,
{
    if 0 <= k < c.points.len() {
        lemma_reduce_keeps_order(c.kw, c.prec, frags);
        let r = reduce(c.prec, frags);
        if !r.1 {
            match shifted(c, table, mt, k) {
                Ok(f) => {
                    lemma_flats_push(r.0, f);
                    let next = r.0.push(f);
                    assert(all_ready(c.kw, next)) by {
                        assert forall|j: int| 0 <= j < next.len() implies frag_ready(c.kw, #[trigger] next[j]) by {
                            if j < r.0.len() {
                                assert(next[j] == r.0[j]);
                            }
                        }
                    }
                    lemma_expr_loop_keeps_order(c, table, mt, next, k + 1, msg, i);
                },
                Err(_) => {
                    assert(shifted_run(c, table, mt, i, k + 1) =~= shifted_run(c, table, mt, i, k));
                },
            }
        }
    }
}

/// With the standard precedence table, an accepted expression is emitted as
/// its operands and operators in exactly the order they were read: the
/// fragment tree reorders nothing, so reading the emitted points again meets
/// the same symbols in the same order.
pub proof fn law_flatten_keeps_order(c: Ctx, m: Model)
    requires
        distinct_keys(c.kw),
        c.prec == precedence_spec(c.kw),
        0 <= m.cursor < c.points.len(),
    ensures
        ({
            let mt = wanted_kind(top(pop(m)));
            let r = expr_loop(c, m.table, mt, seq![Frag::single(Label::Mark(c.kw.start))], m.cursor, Seq::empty());
            accepted(c.kw, r.0) ==> expression(c, m).out == pop(pop(m)).out + shifted_run(c, m.table, mt, m.cursor, r.1)
        }),
{
    let mt = wanted_kind(top(pop(m)));
    let start = Frag::single(Label::Mark(c.kw.start));
    lemma_standard_greater_onto_labels(c.kw);
    assert(flats(seq![start]) =~= shifted_run(c, m.table, mt, m.cursor, m.cursor)) by {
        assert(seq![start] =~= Seq::<Frag>::empty().push(start));
        lemma_flats_push(Seq::<Frag>::empty(), start);
        assert(flats(Seq::<Frag>::empty()) =~= Seq::<PointView>::empty());
        assert(start.flat() =~= Seq::<PointView>::empty()) by {
            assert(start.left_flat() =~= Seq::<PointView>::empty());
            assert(start.right_flat() =~= Seq::<PointView>::empty());
            assert(start.own_flat() =~= Seq::<PointView>::empty());
        }
    }
    lemma_expr_loop_keeps_order(c, m.table, mt, seq![start], m.cursor, Seq::empty(), m.cursor);
    let r = expr_loop(c, m.table, mt, seq![start], m.cursor, Seq::empty());
    if accepted(c.kw, r.0) {
        assert(r.0 =~= Seq::<Frag>::empty().push(r.0[0]));
        lemma_flats_push(Seq::<Frag>::empty(), r.0[0]);
        assert(flats(Seq::<Frag>::empty()) =~= Seq::<PointView>::empty());
        assert(flats(r.0) =~= r.0[0].flat());
    }
}

} // verus!
