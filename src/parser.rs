//! The executable parser, proved to follow the state machine step by step.
use std::collections::BTreeMap;
use vstd::prelude::*;
use crate::fragment::{frag_views, Frag, Label, ParserTree, TreeType};
use crate::entities::{push_char, merged, views, FPoint, Kind, MetaData, PointState, PointView, Precedence, StateView, Token, VariableType};
use crate::grammar::{keywords_spec, precedence_view, Keywords, Obligation};
use crate::machine::{
    all_tokens, assignment, close_execute, close_repeat, comparison, condition,
    condition_end, decl_outcome, decl_scan, declaration, declare_all, emit,
    end_scope, err_span, expr_loop, expression, first_decl_fault,
    first_io_fault, io_list, io_outcome, is_any_tok, is_tok,
    lemma_step_progress, lemma_decl_scan, lemma_decl_refs, lemma_list_scan, lemma_list_refs, lemma_expr_loop, list_scan, measure, oblige, open_division, open_loop, operand_kind,
    operand_points, operator, pop, reduce, relation, role, run, set_end, shifted, step, sym,
    syms_of, top, variable_kind, Ctx, DeclPhase, ListEnd, ListPhase,
    Model,
};

verus! {

broadcast use {vstd::std_specs::btree::group_btree_axioms, crate::entities::lemma_views_push};


/// The parser's executable state; the symbol table is held apart.
pub struct ParseState {
    pub cursor: usize,
    pub stack: Vec<Obligation>,
    pub out: Vec<FPoint>,
}

pub open spec fn model(st: ParseState, table: Map<i16, Token>) -> Model {
    Model { cursor: st.cursor as int, stack: st.stack@, out: views(st.out@), table }
}

pub open spec fn ctx_of(points: Seq<FPoint>, kw: Keywords, prec: BTreeMap<i16, BTreeMap<i16, Precedence>>) -> Ctx {
    Ctx { points: views(points), kw, prec: precedence_view(prec) }
}

/// The role of a symbol, without the literal's value.
#[derive(Clone, Copy)]
pub enum Role {
    Und,
    Pred,
    Lit(Kind),
    Var(Kind),
}

pub open spec fn role_view(t: Token) -> Role {
    match t {
        Token::Und => Role::Und,
        Token::Pred => Role::Pred,
        Token::Lit(v) => Role::Lit(v.kind()),
        Token::Var(k) => Role::Var(k),
    }
}

fn role_at(table: &BTreeMap<i16, Token>, k: i16) -> (r: Role)
    ensures
        r == role_view(role(table@, k)),
{
    match table.get(&k) {
        Some(t) => match t {
            Token::Und => Role::Und,
            Token::Pred => Role::Pred,
            Token::Lit(v) => Role::Lit(
                match v {
                    VariableType::Integer(_) => Kind::Integer,
                    VariableType::Float(_) => Kind::Float,
                    VariableType::Character(_) => Kind::Character,
                },
            ),
            Token::Var(kd) => Role::Var(*kd),
        },
        None => Role::Und,
    }
}

fn is_token(points: &Vec<FPoint>, i: usize, k: i16) -> (r: bool)
    ensures
        r == is_tok(views(points@), i as int, k),
{
    if i < points.len() {
        match &points[i].state {
            PointState::Token(s) => *s == k,
            _ => false,
        }
    } else {
        false
    }
}

fn is_any_token(points: &Vec<FPoint>, i: usize) -> (r: bool)
    ensures
        r == is_any_tok(views(points@), i as int),
{
    if i < points.len() {
        match &points[i].state {
            PointState::Token(_) => true,
            _ => false,
        }
    } else {
        false
    }
}

fn operand_kind_at(points: &Vec<FPoint>, i: usize, table: &BTreeMap<i16, Token>) -> (r: Option<Kind>)
    requires
        i < points.len(),
    ensures
        r == operand_kind(views(points@), i as int, table@),
{
    match &points[i].state {
        PointState::Token(s) => match role_at(table, *s) {
            Role::Lit(kd) => Some(kd),
            Role::Var(kd) => Some(kd),
            _ => None,
        },
        _ => None,
    }
}

fn error_at(points: &Vec<FPoint>, a: usize, b: usize, msg: &str) -> (r: FPoint)
    requires
        a < b <= points.len(),
    ensures
        r@ == err_span(views(points@), a as int, b as int, msg@),
{
    FPoint::merge_span(points, a, b, PointState::Error(String::from_str(msg)))
}

impl ParseState {
    fn emit(&mut self, p: FPoint)
        ensures
            final(self).cursor == old(self).cursor,
            final(self).stack@ == old(self).stack@,
            views(final(self).out@) == views(old(self).out@).push(p@),
    {
        self.out.push(p);
    }

    fn oblige(&mut self, o: Obligation)
        ensures
            final(self).cursor == old(self).cursor,
            final(self).stack@ == old(self).stack@.push(o),
            final(self).out@ == old(self).out@,
    {
        self.stack.push(o);
    }

    fn drop_top(&mut self) -> (r: Option<Obligation>)
        ensures
            final(self).cursor == old(self).cursor,
            final(self).out@ == old(self).out@,
            final(self).stack@ == (if old(self).stack@.len() > 0 {
                old(self).stack@.drop_last()
            } else {
                old(self).stack@
            }),
            r == top(model(*old(self), Map::empty())),
    {
        self.stack.pop()
    }

    fn top_ob(&self) -> (r: Option<Obligation>)
        ensures
            r == top(model(*self, Map::empty())),
    {
        if self.stack.len() > 0 {
            Some(self.stack[self.stack.len() - 1])
        } else {
            None
        }
    }
}

fn exec_open_division(
    points: &Vec<FPoint>,
    kw: &Keywords,
    st: &mut ParseState,
    table: &BTreeMap<i16, Token>,
    label: i16,
    ob: Obligation,
    msg: &str,
    Ghost(c): Ghost<Ctx>,
)
    requires
        c.points == views(points@),
        c.kw == *kw,
        old(st).cursor < points.len(),
    ensures
        model(*final(st), table@) == open_division(c, model(*old(st), table@), label, ob, msg@),
{
    let i = st.cursor;
    let n = points.len();
    if n - i < 3 {
        st.emit(error_at(points, i, i + 1, "bad input"));
        st.cursor = i + 1;
    } else if !(is_token(points, i + 1, kw.division) && is_token(points, i + 2, kw.semicolon)) {
        st.emit(error_at(points, i, i + 3, msg));
        st.cursor = i + 1;
    } else {
        st.emit(FPoint::merge_span(points, i, i + 3, PointState::ParsedToken(label)));
        st.oblige(ob);
        st.cursor = i + 3;
    }
}

fn exec_end_scope(points: &Vec<FPoint>, kw: &Keywords, st: &mut ParseState, table: &BTreeMap<i16, Token>, Ghost(c): Ghost<Ctx>)
    requires
        c.points == views(points@),
        c.kw == *kw,
        old(st).cursor < points.len(),
    ensures
        model(*final(st), table@) == end_scope(c, model(*old(st), table@)),
{
    let i = st.cursor;
    let n = points.len();
    if n - i < 2 {
        st.emit(error_at(points, i, i + 1, "bad input"));
        st.cursor = i + 1;
    } else if !is_token(points, i + 1, kw.semicolon) {
        st.emit(error_at(points, i, i + 2, "expected: end;"));
        st.cursor = i + 1;
    } else {
        st.emit(FPoint::merge_span(points, i, i + 2, PointState::ParsedToken(kw.end)));
        st.drop_top();
        st.cursor = i + 2;
    }
}

fn exec_open_loop(
    points: &Vec<FPoint>,
    kw: &Keywords,
    st: &mut ParseState,
    table: &BTreeMap<i16, Token>,
    ob: Obligation,
    msg: &str,
    Ghost(c): Ghost<Ctx>,
)
    requires
        c.points == views(points@),
        c.kw == *kw,
        old(st).cursor < points.len(),
    ensures
        model(*final(st), table@) == open_loop(c, model(*old(st), table@), ob, msg@),
{
    let i = st.cursor;
    let n = points.len();
    if n - i < 2 {
        st.emit(error_at(points, i, i + 1, "bad input"));
        st.cursor = i + 1;
    } else if !is_token(points, i + 1, kw.lbrace) {
        st.emit(error_at(points, i, i + 2, msg));
        st.cursor = i + 1;
    } else {
        st.emit(points[i].to_parsed());
        st.emit(points[i + 1].to_parsed());
        st.oblige(ob);
        st.cursor = i + 2;
    }
}

fn exec_close_repeat(points: &Vec<FPoint>, kw: &Keywords, st: &mut ParseState, table: &BTreeMap<i16, Token>, Ghost(c): Ghost<Ctx>)
    requires
        c.points == views(points@),
        c.kw == *kw,
        old(st).cursor < points.len(),
    ensures
        model(*final(st), table@) == close_repeat(c, model(*old(st), table@)),
{
    let i = st.cursor;
    let n = points.len();
    st.drop_top();
    st.emit(points[i].to_parsed());
    if n - i < 4 {
        st.emit(error_at(points, i, i + 1, "bad input"));
    } else if is_token(points, i + 2, kw.times) {
        if operand_kind_at(points, i + 1, table).is_none() {
            st.emit(error_at(points, i + 1, i + 3, "bad input"));
        } else if !is_token(points, i + 3, kw.semicolon) {
            st.emit(error_at(points, i + 3, i + 4, "expected: ;"));
        } else {
            st.emit(points[i + 2].to_parsed());
            st.emit(points[i + 1].to_parsed());
        }
        st.cursor = i + 3;
    } else if is_any_token(points, i + 2) {
        st.oblige(Obligation::Condition);
        st.oblige(Obligation::Condition);
        st.cursor = i + 1;
    } else {
        st.emit(error_at(points, i + 1, i + 3, "bad input"));
        st.cursor = i + 3;
    }
}

fn exec_close_execute(points: &Vec<FPoint>, kw: &Keywords, st: &mut ParseState, table: &BTreeMap<i16, Token>, Ghost(c): Ghost<Ctx>)
    requires
        c.points == views(points@),
        c.kw == *kw,
        old(st).cursor < points.len(),
    ensures
        model(*final(st), table@) == close_execute(c, model(*old(st), table@)),
{
    let i = st.cursor;
    let n = points.len();
    st.drop_top();
    st.emit(points[i].to_parsed());
    if n - i < 4 {
        st.emit(error_at(points, i, i + 1, "bad input"));
    } else if is_any_token(points, i + 2) {
        st.oblige(Obligation::Condition);
        st.oblige(Obligation::Condition);
        st.cursor = i + 1;
    } else {
        st.emit(error_at(points, i + 1, i + 3, "bad input"));
        st.cursor = i + 3;
    }
}

fn exec_set_end(points: &Vec<FPoint>, kw: &Keywords, st: &mut ParseState, table: &BTreeMap<i16, Token>, Ghost(c): Ghost<Ctx>)
    requires
        c.points == views(points@),
        c.kw == *kw,
        old(st).cursor < points.len(),
    ensures
        model(*final(st), table@) == set_end(c, model(*old(st), table@)),
{
    let i = st.cursor;
    st.drop_top();
    st.cursor = i + 1;
    if is_token(points, i, kw.semicolon) {
        st.emit(points[i].to_parsed());
    } else {
        st.emit(error_at(points, i, i + 1, "expected: ;"));
    }
}

fn exec_operator(points: &Vec<FPoint>, kw: &Keywords, st: &mut ParseState, table: &BTreeMap<i16, Token>, Ghost(c): Ghost<Ctx>)
    requires
        c.points == views(points@),
        c.kw == *kw,
        old(st).cursor < points.len(),
    ensures
        model(*final(st), table@) == operator(c, model(*old(st), table@)),
{
    let i = st.cursor;
    st.drop_top();
    st.cursor = i + 1;
    let relop = match &points[i].state {
        PointState::Token(s) => *s == kw.lt || *s == kw.le || *s == kw.gt || *s == kw.ge || *s == kw.ne || *s == kw.eq,
        _ => false,
    };
    if relop {
        st.emit(points[i].to_parsed());
    } else {
        st.emit(error_at(points, i, i + 1, "expected: LT or LE or GT or GE or NE or EQ"));
    }
}

fn exec_assignment(points: &Vec<FPoint>, kw: &Keywords, st: &mut ParseState, table: &BTreeMap<i16, Token>, Ghost(c): Ghost<Ctx>)
    requires
        c.points == views(points@),
        c.kw == *kw,
        old(st).cursor < points.len(),
    ensures
        model(*final(st), table@) == assignment(c, model(*old(st), table@)),
{
    let i = st.cursor;
    let n = points.len();
    if n - i < 5 {
        st.emit(error_at(points, i, i + 1, "bad input"));
        st.cursor = i + 1;
        return;
    }
    let vk = match &points[i + 1].state {
        PointState::Token(s) => match role_at(table, *s) {
            Role::Var(kd) => Some(kd),
            _ => None,
        },
        _ => None,
    };
    assert(vk == variable_kind(c.points, i + 1, table@));
    match vk {
        Some(kd) => {
            if !is_token(points, i + 2, kw.to) {
                st.emit(error_at(points, i, i + 3, "expected: set <var> to"));
                st.cursor = i + 1;
            } else {
                st.emit(points[i + 1].to_parsed());
                st.oblige(Obligation::SetEnd);
                st.oblige(Obligation::Typed(kd));
                st.emit(FPoint::merge_span(points, i, i + 3, PointState::ParsedToken(kw.assign)));
                st.oblige(Obligation::Math);
                st.cursor = i + 3;
            }
        },
        None => {
            st.emit(error_at(points, i, i + 3, "expected: set <var> to"));
            st.cursor = i + 1;
        },
    }
}

/// The symbols of the points at `refs`, or `None` if one of them is no `Token`.
fn symbols_at(points: &Vec<FPoint>, refs: &Vec<usize>) -> (r: Option<Vec<i16>>)
    requires
        forall|j: int| 0 <= j < refs@.len() ==> refs@[j] < points@.len(),
    ensures
        match r {
            Some(v) => all_tokens(views(points@), refs@) && v@ == syms_of(views(points@), refs@),
            None => !all_tokens(views(points@), refs@),
        },
{
    let ghost p = views(points@);
    let mut syms: Vec<i16> = Vec::new();
    let mut j: usize = 0;
    while j < refs.len()
        invariant
            j <= refs@.len(),
            forall|q: int| 0 <= q < refs@.len() ==> refs@[q] < points@.len(),
            forall|q: int| 0 <= q < j ==> #[trigger] p[refs@[q] as int].state is Token,
            syms@ == syms_of(p, refs@.subrange(0, j as int)),
            p == views(points@),
        decreases refs@.len() - j,
    {
        match &points[refs[j]].state {
            PointState::Token(s) => {
                syms.push(*s);
            },
            _ => {
                return None;
            },
        }
        proof {
            assert(refs@.subrange(0, j + 1) =~= refs@.subrange(0, j as int).push(refs@[j as int]));
            assert(syms_of(p, refs@.subrange(0, j + 1)) =~= syms_of(p, refs@.subrange(0, j as int)).push(sym(p[refs@[j as int] as int].state)));
        }
        j = j + 1;
    }
    proof {
        assert(refs@.subrange(0, j as int) =~= refs@);
    }
    Some(syms)
}

/// The points emitted for the operands of a clause.
fn push_operands(st: &mut ParseState, line: u32, names: &Vec<i16>)
    ensures
        final(st).cursor == old(st).cursor,
        final(st).stack@ == old(st).stack@,
        views(final(st).out@) == views(old(st).out@) + operand_points(line, names@),
{
    let ghost o = views(st.out@);
    let mut j: usize = 0;
    while j < names.len()
        invariant
            j <= names@.len(),
            st.cursor == old(st).cursor,
            st.stack@ == old(st).stack@,
            o == views(old(st).out@),
            views(st.out@) == o + operand_points(line, names@.subrange(0, j as int)),
        decreases names@.len() - j,
    {
        st.emit(FPoint { meta_data: MetaData { line, raw: String::from_str("val") }, state: PointState::ParsedToken(names[j]) });
        proof {
            assert(names@.subrange(0, j + 1) =~= names@.subrange(0, j as int).push(names@[j as int]));
            assert(operand_points(line, names@.subrange(0, j + 1)) =~= operand_points(line, names@.subrange(0, j as int)).push(
                PointView { line, raw: "val"@, state: StateView::ParsedToken(names@[j as int]) },
            ));
        }
        j = j + 1;
    }
    proof {
        assert(names@.subrange(0, j as int) =~= names@);
    }
}

fn exec_decl_scan(points: &Vec<FPoint>, kw: &Keywords, i: usize) -> (r: (usize, bool, Vec<usize>))
    requires
        i < points.len(),
    ensures
        (r.0 as int, r.1, r.2@) == decl_scan(views(points@), *kw, i as int, DeclPhase::Name, Seq::empty()),
        i < r.0 <= points.len(),
        r.1 ==> r.2@.len() >= 2,
        forall|j: int| 0 <= j < r.2@.len() ==> r.2@[j] < points@.len(),
{
    let ghost p = views(points@);
    let ghost target = decl_scan(p, *kw, i as int, DeclPhase::Name, Seq::empty());
    let n = points.len();
    let mut k: usize = i;
    let mut ph = DeclPhase::Name;
    let mut refs: Vec<usize> = Vec::new();
    let mut done: bool = false;
    let mut acc: bool = false;
    while !done
        invariant
            i <= k <= n,
            n == points@.len(),
            p == views(points@),
            forall|j: int| 0 <= j < refs@.len() ==> refs@[j] < n,
            !done ==> decl_scan(p, *kw, k as int, ph, refs@) == target,
            done ==> (k as int, acc, refs@) == target,
            !done ==> !acc,
        decreases n - k + (if done { 0int } else { 1int }),
    {
        if k >= n {
            done = true;
        } else {
            match ph {
                DeclPhase::Name => {
                    refs.push(k);
                    ph = DeclPhase::Sep;
                },
                DeclPhase::Sep => {
                    if is_token(points, k, kw.comma) {
                        ph = DeclPhase::Name;
                    } else if is_token(points, k, kw.colon) {
                        ph = DeclPhase::Type;
                    } else {
                        ph = DeclPhase::Skip;
                    }
                },
                DeclPhase::Type => {
                    refs.push(k);
                    ph = DeclPhase::Semi;
                },
                DeclPhase::Semi => {
                    if is_token(points, k, kw.semicolon) {
                        acc = true;
                        done = true;
                    } else {
                        ph = DeclPhase::Skip;
                    }
                },
                DeclPhase::Skip => {
                    if is_token(points, k, kw.semicolon) {
                        done = true;
                    }
                },
            }
            k = k + 1;
        }
    }
    proof {
        lemma_decl_scan(p, *kw, i as int, DeclPhase::Name, Seq::empty());
        lemma_decl_refs(p, *kw, i as int, DeclPhase::Name, Seq::empty());
    }
    (k, acc, refs)
}

/// The first name, from `idx` on, that cannot be declared, with the reason.
fn exec_first_decl_fault(table: &BTreeMap<i16, Token>, names: &Vec<i16>) -> (r: Option<&'static str>)
    ensures
        match r {
            Some(e) => first_decl_fault(table@, names@, 0) == Some(e@),
            None => first_decl_fault(table@, names@, 0) is None,
        },
{
    let mut idx: usize = 0;
    while idx < names.len()
        invariant
            idx <= names@.len(),
            first_decl_fault(table@, names@, 0) == first_decl_fault(table@, names@, idx as int),
        decreases names@.len() - idx,
    {
        let mut m: usize = 0;
        let mut dup = false;
        while m < idx
            invariant
                m <= idx < names@.len(),
                dup <==> exists|q: int| 0 <= q < m && names@[q] == names@[idx as int],
            decreases idx - m,
        {
            if names[m] == names[idx] {
                dup = true;
            }
            m = m + 1;
        }
        if dup {
            return Some("cannot redefine variables");
        }
        match role_at(table, names[idx]) {
            Role::Pred | Role::Lit(_) => {
                return Some("cannot use predefined or literal expressions");
            },
            Role::Var(_) => {
                return Some("cannot redefine variables");
            },
            Role::Und => {},
        }
        idx = idx + 1;
    }
    None
}

fn declare_names(table: &mut BTreeMap<i16, Token>, names: &Vec<i16>, k: Kind)
    ensures
        final(table)@ == declare_all(old(table)@, names@, k),
{
    let mut j: usize = 0;
    while j < names.len()
        invariant
            j <= names@.len(),
            table@ == declare_all(old(table)@, names@.subrange(0, j as int), k),
        decreases names@.len() - j,
    {
        table.insert(names[j], Token::Var(k));
        proof {
            assert(names@.subrange(0, j + 1).drop_last() =~= names@.subrange(0, j as int));
        }
        j = j + 1;
    }
    proof {
        assert(names@.subrange(0, j as int) =~= names@);
    }
}

fn exec_declaration(points: &Vec<FPoint>, kw: &Keywords, st: &mut ParseState, table: &mut BTreeMap<i16, Token>, Ghost(c): Ghost<Ctx>)
    requires
        c.points == views(points@),
        c.kw == *kw,
        old(st).cursor < points.len(),
    ensures
        model(*final(st), final(table)@) == declaration(c, model(*old(st), old(table)@)),
{
    let ghost m0 = model(*st, table@);
    let i = st.cursor;
    let (end, acc, refs) = exec_decl_scan(points, kw, i);
    let ghost outcome = decl_outcome(c, m0);
    let msg: &str;
    if !acc {
        msg = "expected: <var> ,... : <type>;";
    } else {
        match symbols_at(points, &refs) {
            None => {
                msg = "bad input";
            },
            Some(mut syms) => {
                let last = syms.pop().unwrap();
                let tk = if last == kw.integer {
                    Some(Kind::Integer)
                } else if last == kw.float {
                    Some(Kind::Float)
                } else if last == kw.char_kw {
                    Some(Kind::Character)
                } else {
                    None
                };
                match tk {
                    None => {
                        msg = "type must be: integer or float or char";
                    },
                    Some(kd) => {
                        match exec_first_decl_fault(table, &syms) {
                            Some(e) => {
                                msg = e;
                            },
                            None => {
                                assert(outcome == Ok::<(Seq<i16>, Kind), Seq<char>>((syms@, kd)));
                                declare_names(table, &syms, kd);
                                push_operands(st, points[refs[0]].meta_data.line, &syms);
                                st.cursor = end;
                                return;
                            },
                        }
                    },
                }
            },
        }
    }
    assert(outcome == Err::<(Seq<i16>, Kind), Seq<char>>(msg@));
    st.emit(error_at(points, i, end, msg));
    st.cursor = end;
}

fn exec_list_scan(points: &Vec<FPoint>, kw: &Keywords, i: usize) -> (r: (usize, ListEnd, Vec<usize>))
    requires
        i < points.len(),
    ensures
        (r.0 as int, r.1, r.2@) == list_scan(views(points@), *kw, i as int, ListPhase::Name, Seq::empty()),
        i < r.0 <= points.len(),
        r.1 is Accepted ==> r.2@.len() >= 1,
        forall|j: int| 0 <= j < r.2@.len() ==> r.2@[j] < points@.len(),
{
    let ghost p = views(points@);
    let ghost target = list_scan(p, *kw, i as int, ListPhase::Name, Seq::empty());
    let n = points.len();
    let mut k: usize = i;
    let mut ph = ListPhase::Name;
    let mut refs: Vec<usize> = Vec::new();
    let mut fin: Option<ListEnd> = None;
    let mut end: usize = n;
    while fin.is_none()
        invariant
            i <= k < n,
            n == points@.len(),
            p == views(points@),
            forall|j: int| 0 <= j < refs@.len() ==> refs@[j] < n,
            fin is None ==> list_scan(p, *kw, k as int, ph, refs@) == target,
            fin is Some ==> (end as int, fin->0, refs@) == target,
        decreases n - k + (if fin is None { 1int } else { 0int }),
    {
        if k + 1 >= n {
            end = n;
            fin = Some(ListEnd::Unterminated);
        } else {
            let k1 = k + 1;
            match ph {
                ListPhase::Name => {
                    refs.push(k1);
                    ph = ListPhase::Sep;
                },
                ListPhase::Sep => {
                    if is_token(points, k1, kw.comma) {
                        ph = ListPhase::Name;
                    } else if is_token(points, k1, kw.semicolon) {
                        end = k1;
                        fin = Some(ListEnd::Accepted);
                    } else {
                        ph = ListPhase::Skip;
                    }
                },
                ListPhase::Skip => {
                    if is_token(points, k1, kw.semicolon) {
                        end = k1;
                        fin = Some(ListEnd::Rejected);
                    }
                },
            }
            if fin.is_none() {
                k = k1;
            }
        }
    }
    proof {
        lemma_list_scan(p, *kw, i as int, ListPhase::Name, Seq::empty());
        lemma_list_refs(p, *kw, i as int, ListPhase::Name, Seq::empty());
    }
    (end, fin.unwrap(), refs)
}

/// Why an operand of `get` or `put` is refused, for the first refused one.
fn exec_first_io_fault(table: &BTreeMap<i16, Token>, names: &Vec<i16>) -> (r: Option<&'static str>)
    ensures
        match r {
            Some(e) => first_io_fault(table@, names@, 0) == Some(e@),
            None => first_io_fault(table@, names@, 0) is None,
        },
{
    let mut idx: usize = 0;
    while idx < names.len()
        invariant
            idx <= names@.len(),
            first_io_fault(table@, names@, 0) == first_io_fault(table@, names@, idx as int),
        decreases names@.len() - idx,
    {
        match role_at(table, names[idx]) {
            Role::Pred | Role::Lit(_) => {
                return Some("cannot use predefined or literal expressions");
            },
            Role::Und => {
                return Some("cannot use undefined variables");
            },
            Role::Var(_) => {},
        }
        idx = idx + 1;
    }
    None
}

fn exec_io_list(points: &Vec<FPoint>, kw: &Keywords, st: &mut ParseState, table: &BTreeMap<i16, Token>, Ghost(c): Ghost<Ctx>)
    requires
        c.points == views(points@),
        c.kw == *kw,
        old(st).cursor < points.len(),
    ensures
        model(*final(st), table@) == io_list(c, model(*old(st), table@)),
{
    let ghost m0 = model(*st, table@);
    let i = st.cursor;
    let (end, fin, refs) = exec_list_scan(points, kw, i);
    let ghost outcome = io_outcome(c, m0);
    let msg: &str;
    match fin {
        ListEnd::Accepted => {
            match symbols_at(points, &refs) {
                None => {
                    msg = "bad input";
                },
                Some(syms) => {
                    match exec_first_io_fault(table, &syms) {
                        Some(e) => {
                            msg = e;
                        },
                        None => {
                            assert(outcome == Ok::<Seq<i16>, Seq<char>>(syms@));
                            st.emit(points[i].to_parsed());
                            push_operands(st, points[refs[0]].meta_data.line, &syms);
                            st.cursor = end;
                            return;
                        },
                    }
                },
            }
        },
        _ => {
            msg = "expected: get <var> ,... ;";
        },
    }
    assert(outcome == Err::<Seq<i16>, Seq<char>>(msg@));
    st.emit(error_at(points, i, end, msg));
    st.cursor = end;
}

fn push_comparison(st: &mut ParseState, k: Kind)
    ensures
        final(st).cursor == old(st).cursor,
        final(st).out@ == old(st).out@,
        final(st).stack@ == old(st).stack@ + comparison(k),
{
    st.oblige(Obligation::ConditionEnd);
    st.oblige(Obligation::Typed(k));
    st.oblige(Obligation::Math);
    st.oblige(Obligation::Operator);
    st.oblige(Obligation::Typed(k));
    st.oblige(Obligation::Math);
    assert(st.stack@ =~= old(st).stack@ + comparison(k));
}

fn exec_condition(points: &Vec<FPoint>, kw: &Keywords, st: &mut ParseState, table: &BTreeMap<i16, Token>, Ghost(c): Ghost<Ctx>)
    requires
        c.points == views(points@),
        c.kw == *kw,
        old(st).cursor < points.len(),
    ensures
        model(*final(st), table@) == condition(c, model(*old(st), table@)),
{
    let i = st.cursor;
    let n = points.len();
    st.drop_top();
    if n - i <= 5 {
        st.emit(error_at(points, i, i + 1, "bad input;"));
        st.cursor = i + 1;
        return;
    }
    let t2 = st.top_ob();
    let opens = match t2 {
        Some(Obligation::Condition) => true,
        _ => false,
    };
    let middle: bool;
    let ok: bool;
    if is_token(points, i, kw.either) && opens {
        st.drop_top();
        st.oblige(Obligation::EitherOr);
        middle = false;
        ok = true;
    } else if is_token(points, i, kw.neither) && opens {
        st.drop_top();
        st.oblige(Obligation::NeitherNor);
        middle = false;
        ok = true;
    } else if is_token(points, i, kw.both) && opens {
        st.drop_top();
        st.oblige(Obligation::BothAnd);
        middle = false;
        ok = true;
    } else if is_token(points, i, kw.or_uc) && match t2 {
        Some(Obligation::EitherOr) => true,
        _ => false,
    } {
        st.drop_top();
        middle = true;
        ok = true;
    } else if is_token(points, i, kw.nor) && match t2 {
        Some(Obligation::NeitherNor) => true,
        _ => false,
    } {
        st.drop_top();
        middle = true;
        ok = true;
    } else if is_token(points, i, kw.and_uc) && match t2 {
        Some(Obligation::BothAnd) => true,
        _ => false,
    } {
        st.drop_top();
        middle = true;
        ok = true;
    } else {
        st.drop_top();
        middle = false;
        ok = false;
    }
    if !ok {
        st.emit(error_at(points, i, i + 1, "bad input"));
        st.cursor = i + 2;
        return;
    }
    st.emit(points[i].to_parsed());
    match operand_kind_at(points, i + 1, table) {
        None => {
            st.emit(error_at(points, i + 1, i + 2, "bad input"));
            st.cursor = i + 2;
        },
        Some(kd) => {
            let ghost s_before = st.stack@;
            if !middle {
                st.oblige(Obligation::Condition);
            }
            push_comparison(st, kd);
            proof {
                let obs = if middle {
                    comparison(kd)
                } else {
                    seq![Obligation::Condition] + comparison(kd)
                };
                assert(st.stack@ =~= s_before + obs);
            }
            st.cursor = i + 1;
        },
    }
}

fn exec_condition_end(points: &Vec<FPoint>, kw: &Keywords, st: &mut ParseState, table: &BTreeMap<i16, Token>, Ghost(c): Ghost<Ctx>)
    requires
        c.points == views(points@),
        c.kw == *kw,
        old(st).cursor < points.len(),
    ensures
        model(*final(st), table@) == condition_end(c, model(*old(st), table@)),
{
    let i = st.cursor;
    let n = points.len();
    st.drop_top();
    if is_token(points, i, kw.semicolon) {
        st.emit(points[i].to_parsed());
        st.cursor = i + 1;
    } else if is_token(points, i, kw.and_lc) || is_token(points, i, kw.or_lc) {
        st.emit(points[i].to_parsed());
        if n - i <= 5 {
            st.emit(error_at(points, i, i + 1, "bad input;"));
            st.cursor = i + 1;
            return;
        }
        let has_not = is_token(points, i + 1, kw.not);
        let k = if has_not { i + 2 } else { i + 1 };
        if has_not {
            st.emit(points[i + 1].to_parsed());
        }
        if is_any_token(points, k) {
            match operand_kind_at(points, k, table) {
                Some(kd) => {
                    push_comparison(st, kd);
                    st.cursor = k;
                },
                None => {
                    st.emit(error_at(points, k, k + 1, "bad input"));
                    st.cursor = k + 1;
                },
            }
        } else if match st.top_ob() {
            Some(Obligation::Condition) => true,
            _ => false,
        } {
            st.cursor = k - 1;
        } else {
            st.emit(error_at(points, k, k + 1, "bad input"));
            st.cursor = k + 1;
        }
    } else if match st.top_ob() {
        Some(Obligation::Condition) => true,
        _ => false,
    } {
        st.cursor = i;
    } else {
        st.emit(error_at(points, i, i + 1, "expected: ;"));
        st.cursor = i + 1;
    }
}

fn lookup_relation(prec: &BTreeMap<i16, BTreeMap<i16, Precedence>>, a: i16, b: i16) -> (r: Option<Precedence>)
    ensures
        r == relation(precedence_view(*prec), a, b),
{
    match prec.get(&a) {
        Some(row) => match row.get(&b) {
            Some(x) => Some(*x),
            None => None,
        },
        None => None,
    }
}

/// Reduces the fragment stack as the precedence table asks; `true` when
/// parsing has ended.
fn exec_reduce(prec: &BTreeMap<i16, BTreeMap<i16, Precedence>>, frags: &mut Vec<ParserTree>) -> (ended: bool)
    ensures
        (frag_views(final(frags)@), ended) == reduce(precedence_view(*prec), frag_views(old(frags)@)),
{
    let ghost pv = precedence_view(*prec);
    let ghost target = reduce(pv, frag_views(frags@));
    while frags.len() > 1
        invariant
            reduce(pv, frag_views(frags@)) == target,
            target == reduce(pv, frag_views(old(frags)@)),
            pv == precedence_view(*prec),
        decreases frags@.len(),
    {
        let n = frags.len();
        let ghost fv = frag_views(frags@);
        let f = frags[n - 2].token.get_symbol();
        let s = frags[n - 1].token.get_symbol();
        assert(f == fv[n - 2].label.symbol());
        assert(s == fv[n - 1].label.symbol());
        match lookup_relation(prec, f, s) {
            Some(Precedence::Lesser) => {
                return false;
            },
            Some(Precedence::Greater) => {
                let mut top = frags.pop().unwrap();
                let snd = frags.pop().unwrap();
                top.add_right(snd);
                frags.push(top);
                proof {
                    assert(frag_views(frags@) =~= fv.subrange(0, n - 2).push(fv[n - 1].add_right(fv[n - 2])));
                }
            },
            Some(Precedence::Needs(x)) => {
                let top = frags.pop().unwrap();
                let snd = frags.pop().unwrap();
                let mut node = ParserTree::new(TreeType::Skip(x));
                node.add_right(top);
                node.add_right(snd);
                frags.push(node);
                proof {
                    assert(frag_views(frags@) =~= fv.subrange(0, n - 2).push(
                        Frag::single(Label::Mark(x)).add_right(fv[n - 1]).add_right(fv[n - 2]),
                    ));
                }
                if frags.len() == 1 {
                    return true;
                }
            },
            None => {
                return true;
            },
        }
    }
    false
}

/// The fragment that the point at `i` is shifted as, or why it cannot be.
fn exec_shift(points: &Vec<FPoint>, kw: &Keywords, table: &BTreeMap<i16, Token>, mt: Option<Kind>, i: usize, Ghost(c): Ghost<Ctx>) -> (r: Result<ParserTree, &'static str>)
    requires
        c.points == views(points@),
        c.kw == *kw,
        i < points.len(),
    ensures
        match r {
            Ok(t) => shifted(c, table@, mt, i as int) == Ok::<Frag, Seq<char>>(t@),
            Err(e) => shifted(c, table@, mt, i as int) == Err::<Frag, Seq<char>>(e@),
        },
{
    match &points[i].state {
        PointState::Token(s) => {
            let s = *s;
            match role_at(table, s) {
                Role::Pred => {
                    if s == kw.plus || s == kw.minus || s == kw.star || s == kw.slash || s == kw.lparen || s == kw.rparen {
                        Ok(ParserTree::new(TreeType::Token(s, points[i].to_parsed())))
                    } else {
                        Ok(ParserTree::new(TreeType::Skip(kw.semicolon)))
                    }
                },
                Role::Und => Err("bad input"),
                Role::Lit(kd) | Role::Var(kd) => {
                    if mt == Some(kd) {
                        Ok(ParserTree::new(TreeType::Token(kw.id, points[i].to_parsed())))
                    } else {
                        Err("wrong type of variable or literal")
                    }
                },
            }
        },
        _ => Err("bad input"),
    }
}

fn exec_expression(
    points: &Vec<FPoint>,
    kw: &Keywords,
    st: &mut ParseState,
    table: &BTreeMap<i16, Token>,
    prec: &BTreeMap<i16, BTreeMap<i16, Precedence>>,
    Ghost(c): Ghost<Ctx>,
)
    requires
        c.points == views(points@),
        c.kw == *kw,
        c.prec == precedence_view(*prec),
        old(st).cursor < points.len(),
    ensures
        model(*final(st), table@) == expression(c, model(*old(st), table@)),
{
    let i = st.cursor;
    let n = points.len();
    st.drop_top();
    let mt = match st.drop_top() {
        Some(Obligation::Typed(kd)) => Some(kd),
        _ => None,
    };
    let mut frags: Vec<ParserTree> = Vec::new();
    frags.push(ParserTree::new(TreeType::Skip(kw.start)));
    let mut k: usize = i;
    let mut msg: &str = "";
    proof {
        reveal_strlit("");
        assert(frag_views(frags@) =~= seq![Frag::single(Label::Mark(c.kw.start))]);
    }
    let ghost target = expr_loop(c, table@, mt, frag_views(frags@), i as int, msg@);
    assert(msg@ == Seq::<char>::empty());
    let mut done: bool = false;
    while !done
        invariant
            i <= k <= n,
            n == points@.len(),
            c.points == views(points@),
            c.kw == *kw,
            c.prec == precedence_view(*prec),
            !done ==> expr_loop(c, table@, mt, frag_views(frags@), k as int, msg@) == target,
            done ==> (frag_views(frags@), k as int, msg@) == target,
            target == expr_loop(c, table@, mt, seq![Frag::single(Label::Mark(c.kw.start))], i as int, Seq::empty()),
        decreases n - k + (if done { 0int } else { 1int }),
    {
        if k >= n {
            done = true;
        } else {
            let ended = exec_reduce(prec, &mut frags);
            if ended {
                done = true;
            } else {
                let ghost before = frag_views(frags@);
                match exec_shift(points, kw, table, mt, k, Ghost(c)) {
                    Ok(t) => {
                        frags.push(t);
                        proof {
                            assert(frag_views(frags@) =~= before.push(t@));
                        }
                    },
                    Err(e) => {
                        msg = e;
                        done = true;
                    },
                }
                k = k + 1;
            }
        }
    }
    proof {
        lemma_expr_loop(c, table@, mt, seq![Frag::single(Label::Mark(c.kw.start))], i as int, Seq::empty());
    }
    let ok = frags.len() == 1 && match &frags[0].token {
        TreeType::Skip(s) => *s == kw.accept,
        _ => false,
    };
    if ok {
        frags[0].iter(&mut st.out);
        st.cursor = k - 1;
    } else {
        let e1 = if !is_token(points, k - 1, kw.semicolon) { k - 1 } else { k };
        let e2 = if e1 >= n { n - 1 } else { e1 };
        let e3 = if e2 == i { i + 1 } else { e2 };
        st.emit(error_at(points, i, e3, msg));
        st.cursor = e3;
    }
}

fn exec_step(
    points: &Vec<FPoint>,
    kw: &Keywords,
    st: &mut ParseState,
    table: &mut BTreeMap<i16, Token>,
    prec: &BTreeMap<i16, BTreeMap<i16, Precedence>>,
    Ghost(c): Ghost<Ctx>,
)
    requires
        c.points == views(points@),
        c.kw == *kw,
        c.prec == precedence_view(*prec),
        old(st).cursor < points.len(),
    ensures
        model(*final(st), final(table)@) == step(c, model(*old(st), old(table)@)),
{
    let i = st.cursor;
    let t = st.top_ob();
    let none = t.is_none();
    let (in_data, in_proc, in_repeat, in_exec, in_math, in_set_end, in_cond, in_cond_end, in_op) = match t {
        Some(Obligation::Data) => (true, false, false, false, false, false, false, false, false),
        Some(Obligation::Procedure) => (false, true, false, false, false, false, false, false, false),
        Some(Obligation::Repeat) => (false, false, true, false, false, false, false, false, false),
        Some(Obligation::Execute) => (false, false, false, true, false, false, false, false, false),
        Some(Obligation::Math) => (false, false, false, false, true, false, false, false, false),
        Some(Obligation::SetEnd) => (false, false, false, false, false, true, false, false, false),
        Some(Obligation::Condition) => (false, false, false, false, false, false, true, false, false),
        Some(Obligation::ConditionEnd) => (false, false, false, false, false, false, false, true, false),
        Some(Obligation::Operator) => (false, false, false, false, false, false, false, false, true),
        _ => (false, false, false, false, false, false, false, false, false),
    };
    let body = in_proc || in_repeat;
    if none && is_token(points, i, kw.data) {
        exec_open_division(points, kw, st, table, kw.data, Obligation::Data, "expected: data division;", Ghost(c));
    } else if is_token(points, i, kw.end) && in_data {
        exec_end_scope(points, kw, st, table, Ghost(c));
    } else if none && is_token(points, i, kw.procedure) {
        exec_open_division(points, kw, st, table, kw.procedure, Obligation::Procedure, "expected: procedure division;", Ghost(c));
    } else if is_token(points, i, kw.end) && in_proc {
        exec_end_scope(points, kw, st, table, Ghost(c));
    } else if in_data {
        exec_declaration(points, kw, st, table, Ghost(c));
    } else if is_token(points, i, kw.repeat) && in_proc {
        exec_open_loop(points, kw, st, table, Obligation::Repeat, "expected: repeat {", Ghost(c));
    } else if is_token(points, i, kw.rbrace) && in_repeat {
        exec_close_repeat(points, kw, st, table, Ghost(c));
    } else if is_token(points, i, kw.execute) && in_proc {
        exec_open_loop(points, kw, st, table, Obligation::Execute, "expected: execute {", Ghost(c));
    } else if is_token(points, i, kw.rbrace) && in_exec {
        exec_close_execute(points, kw, st, table, Ghost(c));
    } else if (is_token(points, i, kw.get) || is_token(points, i, kw.put)) && body {
        exec_io_list(points, kw, st, table, Ghost(c));
    } else if is_token(points, i, kw.set) && body {
        exec_assignment(points, kw, st, table, Ghost(c));
    } else if in_math {
        exec_expression(points, kw, st, table, prec, Ghost(c));
    } else if in_set_end {
        exec_set_end(points, kw, st, table, Ghost(c));
    } else if in_cond {
        exec_condition(points, kw, st, table, Ghost(c));
    } else if in_cond_end {
        exec_condition_end(points, kw, st, table, Ghost(c));
    } else if in_op {
        exec_operator(points, kw, st, table, Ghost(c));
    } else {
        st.cursor = i + 1;
    }
}

/// The error point for input that holds no program header.
pub open spec fn no_program() -> PointView {
    PointView { line: 1, raw: "no program found"@ + seq![' '], state: StateView::Error("no program found"@) }
}

/// The error point for a header that is not `program <name> ;`.
pub open spec fn bad_header(points: Seq<PointView>) -> PointView {
    PointView {
        line: 1,
        raw: points[0].raw + seq![' '] + points[1].raw + seq![' '] + points[1].raw + seq![' '],
        state: StateView::Error("bad input"@),
    }
}

/// The symbol table once the program's name has become predefined.
pub open spec fn name_program(points: Seq<PointView>, table: Map<i16, Token>) -> Map<i16, Token> {
    match points[1].state {
        StateView::Token(num) => if table.contains_key(num) {
            table.insert(num, Token::Pred)
        } else {
            table
        },
        _ => table,
    }
}

/// The state after the header `program <name> ;`.
pub open spec fn after_header(points: Seq<PointView>, table: Map<i16, Token>) -> Model {
    Model {
        cursor: 3,
        stack: Seq::empty(),
        out: seq![merged(points, 0, 3, StateView::ParsedToken(keywords_spec().program))],
        table: name_program(points, table),
    }
}

/// What parsing yields: the output points, whether scopes were left open,
/// and the final symbol table.
pub open spec fn parse_spec(points: Seq<PointView>, table: Map<i16, Token>, prec: Map<i16, Map<i16, Precedence>>) -> (Seq<PointView>, bool, Map<i16, Token>) {
    let kw = keywords_spec();
    if points.len() < 3 {
        (seq![no_program()], false, table)
    } else if !is_tok(points, 0, kw.program) || !is_tok(points, 2, kw.semicolon) {
        (seq![bad_header(points)], false, table)
    } else {
        let m = run(Ctx { points, kw, prec }, after_header(points, table));
        (m.out, m.stack.len() > 0, m.table)
    }
}

/// Parses the merged points of a program, updating the symbol table: each
/// recognised span becomes `ParsedToken` points, each faulty one a single
/// `Error` point. The flag tells whether scopes were left open.
pub fn parser(
    points: Vec<FPoint>,
    token_tree: &mut BTreeMap<i16, Token>,
    precedence_tree: &BTreeMap<i16, BTreeMap<i16, Precedence>>,
) -> (r: (Vec<FPoint>, bool))
    ensures
        views(r.0@) == parse_spec(views(points@), old(token_tree)@, precedence_view(*precedence_tree)).0,
        r.1 == parse_spec(views(points@), old(token_tree)@, precedence_view(*precedence_tree)).1,
        final(token_tree)@ == parse_spec(views(points@), old(token_tree)@, precedence_view(*precedence_tree)).2,
{
    let kw = Keywords::new();
    let mut new: Vec<FPoint> = Vec::new();
    if points.len() < 3 {
        let mut raw = String::from_str("no program found");
        push_char(&mut raw, ' ');
        new.push(FPoint { meta_data: MetaData { line: 1, raw }, state: PointState::Error(String::from_str("no program found")) });
        proof {
            assert(new@[0]@.raw =~= no_program().raw);
            assert(new@[0]@ == no_program());
            assert(views(new@) =~= seq![no_program()]);
        }
        return (new, false);
    }
    if !is_token(&points, 0, kw.program) || !is_token(&points, 2, kw.semicolon) {
        let mut raw = String::new();
        raw.append(points[0].meta_data.raw.as_str());
        push_char(&mut raw, ' ');
        raw.append(points[1].meta_data.raw.as_str());
        push_char(&mut raw, ' ');
        raw.append(points[1].meta_data.raw.as_str());
        push_char(&mut raw, ' ');
        new.push(FPoint { meta_data: MetaData { line: 1, raw }, state: PointState::Error(String::from_str("bad input")) });
        proof {
            assert(new@[0]@.raw =~= bad_header(views(points@)).raw);
            assert(new@[0]@ == bad_header(views(points@)));
            assert(views(new@) =~= seq![bad_header(views(points@))]);
        }
        return (new, false);
    }
    match &points[1].state {
        PointState::Token(num) => {
            if token_tree.contains_key(num) {
                token_tree.insert(*num, Token::Pred);
            }
        },
        _ => {},
    }
    assert(token_tree@ == name_program(views(points@), old(token_tree)@));
    new.push(FPoint::merge_span(&points, 0, 3, PointState::ParsedToken(kw.program)));
    let mut st = ParseState { cursor: 3, stack: Vec::new(), out: new };
    let ghost c = Ctx { points: views(points@), kw, prec: precedence_view(*precedence_tree) };
    let ghost m0 = model(st, token_tree@);
    proof {
        assert(m0.out =~= after_header(views(points@), old(token_tree)@).out);
        assert(m0.stack =~= after_header(views(points@), old(token_tree)@).stack);
        assert(m0 == after_header(views(points@), old(token_tree)@));
    }
    while st.cursor < points.len()
        invariant
            st.cursor <= points.len(),
            c == (Ctx { points: views(points@), kw, prec: precedence_view(*precedence_tree) }),
            run(c, model(st, token_tree@)) == run(c, m0),
        decreases measure(c, model(st, token_tree@)),
    {
        proof {
            lemma_step_progress(c, model(st, token_tree@));
        }
        exec_step(&points, &kw, &mut st, token_tree, precedence_tree, Ghost(c));
    }
    (st.out, st.stack.len() > 0)
}

} // verus!
