//! The keys the parser dispatches on, its obligations, and the keyword and
//! precedence tables it starts from.
use std::collections::BTreeMap;
use vstd::prelude::*;
use crate::entities::{Kind, Precedence, Token};
use crate::utility::{intern, s_hash};

verus! {

broadcast use vstd::std_specs::btree::group_btree_axioms;

/// The interned keys of the keywords, punctuation and grammar labels that the
/// parser dispatches on.
#[derive(Clone, Copy)]
pub struct Keywords {
    pub program: i16,
    pub semicolon: i16,
    pub colon: i16,
    pub lparen: i16,
    pub rparen: i16,
    pub lbrace: i16,
    pub rbrace: i16,
    pub lbracket: i16,
    pub rbracket: i16,
    pub comma: i16,
    pub plus: i16,
    pub minus: i16,
    pub star: i16,
    pub slash: i16,
    pub assign: i16,
    pub bar: i16,
    pub data: i16,
    pub division: i16,
    pub end: i16,
    pub integer: i16,
    pub float: i16,
    pub char_kw: i16,
    pub procedure: i16,
    pub set: i16,
    pub to: i16,
    pub unsigned: i16,
    pub get: i16,
    pub put: i16,
    pub repeat: i16,
    pub times: i16,
    pub or_lc: i16,
    pub or_uc: i16,
    pub either: i16,
    pub neither: i16,
    pub nor: i16,
    pub both: i16,
    pub and_lc: i16,
    pub and_uc: i16,
    pub execute: i16,
    pub not: i16,
    pub lt: i16,
    pub le: i16,
    pub gt: i16,
    pub ge: i16,
    pub ne: i16,
    pub eq: i16,
    pub start: i16,
    pub accept: i16,
    pub id: i16,
    pub e_plus: i16,
    pub e_star: i16,
    pub e_close: i16,
    pub e_semi: i16,
}

/// The key of every keyword, punctuation mark and grammar label.
pub open spec fn keywords_spec() -> Keywords {
    Keywords {
        program: intern("program"@),
        semicolon: intern(";"@),
        colon: intern(":"@),
        lparen: intern("("@),
        rparen: intern(")"@),
        lbrace: intern("{"@),
        rbrace: intern("}"@),
        lbracket: intern("["@),
        rbracket: intern("]"@),
        comma: intern(","@),
        plus: intern("+"@),
        minus: intern("-"@),
        star: intern("*"@),
        slash: intern("/"@),
        assign: intern("="@),
        bar: intern("|"@),
        data: intern("data"@),
        division: intern("division"@),
        end: intern("end"@),
        integer: intern("integer"@),
        float: intern("float"@),
        char_kw: intern("char"@),
        procedure: intern("procedure"@),
        set: intern("set"@),
        to: intern("to"@),
        unsigned: intern("unsigned"@),
        get: intern("get"@),
        put: intern("put"@),
        repeat: intern("repeat"@),
        times: intern("times"@),
        or_lc: intern("or"@),
        or_uc: intern("Or"@),
        either: intern("either"@),
        neither: intern("neither"@),
        nor: intern("nor"@),
        both: intern("both"@),
        and_lc: intern("and"@),
        and_uc: intern("And"@),
        execute: intern("execute"@),
        not: intern("not"@),
        lt: intern("LT"@),
        le: intern("LE"@),
        gt: intern("GT"@),
        ge: intern("GE"@),
        ne: intern("NE"@),
        eq: intern("EQ"@),
        start: intern("S"@),
        accept: intern("P"@),
        id: intern("id"@),
        e_plus: intern("E+"@),
        e_star: intern("E*"@),
        e_close: intern("E)"@),
        e_semi: intern("E;"@),
    }
}

impl Keywords {
    pub fn new() -> (r: Keywords)
        ensures
            r == keywords_spec(),
    {
        Keywords {
            program: s_hash("program"),
            semicolon: s_hash(";"),
            colon: s_hash(":"),
            lparen: s_hash("("),
            rparen: s_hash(")"),
            lbrace: s_hash("{"),
            rbrace: s_hash("}"),
            lbracket: s_hash("["),
            rbracket: s_hash("]"),
            comma: s_hash(","),
            plus: s_hash("+"),
            minus: s_hash("-"),
            star: s_hash("*"),
            slash: s_hash("/"),
            assign: s_hash("="),
            bar: s_hash("|"),
            data: s_hash("data"),
            division: s_hash("division"),
            end: s_hash("end"),
            integer: s_hash("integer"),
            float: s_hash("float"),
            char_kw: s_hash("char"),
            procedure: s_hash("procedure"),
            set: s_hash("set"),
            to: s_hash("to"),
            unsigned: s_hash("unsigned"),
            get: s_hash("get"),
            put: s_hash("put"),
            repeat: s_hash("repeat"),
            times: s_hash("times"),
            or_lc: s_hash("or"),
            or_uc: s_hash("Or"),
            either: s_hash("either"),
            neither: s_hash("neither"),
            nor: s_hash("nor"),
            both: s_hash("both"),
            and_lc: s_hash("and"),
            and_uc: s_hash("And"),
            execute: s_hash("execute"),
            not: s_hash("not"),
            lt: s_hash("LT"),
            le: s_hash("LE"),
            gt: s_hash("GT"),
            ge: s_hash("GE"),
            ne: s_hash("NE"),
            eq: s_hash("EQ"),
            start: s_hash("S"),
            accept: s_hash("P"),
            id: s_hash("id"),
            e_plus: s_hash("E+"),
            e_star: s_hash("E*"),
            e_close: s_hash("E)"),
            e_semi: s_hash("E;"),
        }
    }
}

/// A pending grammar obligation on the parser's context stack.
#[derive(Debug, Clone, Copy, PartialEq, Eq, Structural)]
pub enum Obligation {
    Data,
    Procedure,
    Repeat,
    Execute,
    SetEnd,
    Math,
    Typed(Kind),
    Condition,
    ConditionEnd,
    Operator,
    EitherOr,
    NeitherNor,
    BothAnd,
}

/// The symbol table before any line is merged: every keyword and
/// punctuation mark is `Predefined`.
pub open spec fn keyword_table_spec(kw: Keywords) -> Map<i16, Token> {
    Map::empty()
        .insert(kw.semicolon, Token::Pred)
        .insert(kw.colon, Token::Pred)
        .insert(kw.lparen, Token::Pred)
        .insert(kw.rparen, Token::Pred)
        .insert(kw.lbrace, Token::Pred)
        .insert(kw.rbrace, Token::Pred)
        .insert(kw.lbracket, Token::Pred)
        .insert(kw.rbracket, Token::Pred)
        .insert(kw.comma, Token::Pred)
        .insert(kw.plus, Token::Pred)
        .insert(kw.minus, Token::Pred)
        .insert(kw.star, Token::Pred)
        .insert(kw.slash, Token::Pred)
        .insert(kw.assign, Token::Pred)
        .insert(kw.program, Token::Pred)
        .insert(kw.data, Token::Pred)
        .insert(kw.division, Token::Pred)
        .insert(kw.bar, Token::Pred)
        .insert(kw.integer, Token::Pred)
        .insert(kw.float, Token::Pred)
        .insert(kw.char_kw, Token::Pred)
        .insert(kw.procedure, Token::Pred)
        .insert(kw.division, Token::Pred)
        .insert(kw.set, Token::Pred)
        .insert(kw.to, Token::Pred)
        .insert(kw.unsigned, Token::Pred)
        .insert(kw.get, Token::Pred)
        .insert(kw.put, Token::Pred)
        .insert(kw.repeat, Token::Pred)
        .insert(kw.times, Token::Pred)
        .insert(kw.or_lc, Token::Pred)
        .insert(kw.or_uc, Token::Pred)
        .insert(kw.either, Token::Pred)
        .insert(kw.neither, Token::Pred)
        .insert(kw.nor, Token::Pred)
        .insert(kw.both, Token::Pred)
        .insert(kw.and_lc, Token::Pred)
        .insert(kw.and_uc, Token::Pred)
        .insert(kw.execute, Token::Pred)
        .insert(kw.not, Token::Pred)
        .insert(kw.lt, Token::Pred)
        .insert(kw.le, Token::Pred)
        .insert(kw.gt, Token::Pred)
        .insert(kw.ge, Token::Pred)
        .insert(kw.ne, Token::Pred)
        .insert(kw.eq, Token::Pred)
}

pub fn keyword_table() -> (r: BTreeMap<i16, Token>)
    ensures
        r@ == keyword_table_spec(keywords_spec()),
{
    let kw = Keywords::new();
    let mut t: BTreeMap<i16, Token> = BTreeMap::new();
    t.insert(kw.semicolon, Token::Pred);
    t.insert(kw.colon, Token::Pred);
    t.insert(kw.lparen, Token::Pred);
    t.insert(kw.rparen, Token::Pred);
    t.insert(kw.lbrace, Token::Pred);
    t.insert(kw.rbrace, Token::Pred);
    t.insert(kw.lbracket, Token::Pred);
    t.insert(kw.rbracket, Token::Pred);
    t.insert(kw.comma, Token::Pred);
    t.insert(kw.plus, Token::Pred);
    t.insert(kw.minus, Token::Pred);
    t.insert(kw.star, Token::Pred);
    t.insert(kw.slash, Token::Pred);
    t.insert(kw.assign, Token::Pred);
    t.insert(kw.program, Token::Pred);
    t.insert(kw.data, Token::Pred);
    t.insert(kw.division, Token::Pred);
    t.insert(kw.bar, Token::Pred);
    t.insert(kw.integer, Token::Pred);
    t.insert(kw.float, Token::Pred);
    t.insert(kw.char_kw, Token::Pred);
    t.insert(kw.procedure, Token::Pred);
    t.insert(kw.division, Token::Pred);
    t.insert(kw.set, Token::Pred);
    t.insert(kw.to, Token::Pred);
    t.insert(kw.unsigned, Token::Pred);
    t.insert(kw.get, Token::Pred);
    t.insert(kw.put, Token::Pred);
    t.insert(kw.repeat, Token::Pred);
    t.insert(kw.times, Token::Pred);
    t.insert(kw.or_lc, Token::Pred);
    t.insert(kw.or_uc, Token::Pred);
    t.insert(kw.either, Token::Pred);
    t.insert(kw.neither, Token::Pred);
    t.insert(kw.nor, Token::Pred);
    t.insert(kw.both, Token::Pred);
    t.insert(kw.and_lc, Token::Pred);
    t.insert(kw.and_uc, Token::Pred);
    t.insert(kw.execute, Token::Pred);
    t.insert(kw.not, Token::Pred);
    t.insert(kw.lt, Token::Pred);
    t.insert(kw.le, Token::Pred);
    t.insert(kw.gt, Token::Pred);
    t.insert(kw.ge, Token::Pred);
    t.insert(kw.ne, Token::Pred);
    t.insert(kw.eq, Token::Pred);
    t
}

/// The operator-precedence relations of arithmetic expressions, row by row.
pub open spec fn precedence_spec(kw: Keywords) -> Map<i16, Map<i16, Precedence>> {
    Map::empty()
        .insert(kw.start, Map::empty().insert(kw.e_semi, Precedence::Needs(kw.accept)).insert(kw.e_plus, Precedence::Lesser).insert(kw.e_star, Precedence::Lesser).insert(kw.lparen, Precedence::Lesser).insert(kw.id, Precedence::Lesser))
        .insert(kw.e_plus, Map::empty().insert(kw.e_plus, Precedence::Needs(kw.e_plus)).insert(kw.e_semi, Precedence::Greater).insert(kw.e_close, Precedence::Greater).insert(kw.e_star, Precedence::Lesser).insert(kw.lparen, Precedence::Lesser).insert(kw.id, Precedence::Lesser))
        .insert(kw.e_star, Map::empty().insert(kw.e_star, Precedence::Needs(kw.e_star)).insert(kw.e_semi, Precedence::Greater).insert(kw.e_close, Precedence::Greater).insert(kw.e_plus, Precedence::Greater).insert(kw.lparen, Precedence::Lesser).insert(kw.id, Precedence::Lesser))
        .insert(kw.e_close, Map::empty())
        .insert(kw.e_semi, Map::empty())
        .insert(kw.plus, Map::empty())
        .insert(kw.minus, Map::empty())
        .insert(kw.star, Map::empty())
        .insert(kw.slash, Map::empty())
        .insert(kw.lparen, Map::empty().insert(kw.e_close, Precedence::Needs(kw.id)).insert(kw.id, Precedence::Lesser).insert(kw.lparen, Precedence::Lesser))
        .insert(kw.rparen, Map::empty())
        .insert(kw.semicolon, Map::empty())
        .insert(kw.id, Map::empty().insert(kw.rparen, Precedence::Needs(kw.e_close)).insert(kw.plus, Precedence::Needs(kw.e_plus)).insert(kw.minus, Precedence::Needs(kw.e_plus)).insert(kw.star, Precedence::Needs(kw.e_star)).insert(kw.slash, Precedence::Needs(kw.e_star)).insert(kw.semicolon, Precedence::Needs(kw.e_semi)))
}

/// The two-level view of a precedence table.
pub open spec fn precedence_view(p: BTreeMap<i16, BTreeMap<i16, Precedence>>) -> Map<i16, Map<i16, Precedence>> {
    Map::new(|a: i16| p@.contains_key(a), |a: i16| p@[a]@)
}

pub fn precedence_table() -> (r: BTreeMap<i16, BTreeMap<i16, Precedence>>)
    ensures
        precedence_view(r) == precedence_spec(keywords_spec()),
{
    let kw = Keywords::new();
    let mut outer: BTreeMap<i16, BTreeMap<i16, Precedence>> = BTreeMap::new();
    let ghost mut spec: Map<i16, Map<i16, Precedence>> = Map::empty();
    {
        let mut inner: BTreeMap<i16, Precedence> = BTreeMap::new();
        inner.insert(kw.e_semi, Precedence::Needs(kw.accept));
        inner.insert(kw.e_plus, Precedence::Lesser);
        inner.insert(kw.e_star, Precedence::Lesser);
        inner.insert(kw.lparen, Precedence::Lesser);
        inner.insert(kw.id, Precedence::Lesser);
        proof { spec = spec.insert(kw.start, inner@); }
        outer.insert(kw.start, inner);
    }
    {
        let mut inner: BTreeMap<i16, Precedence> = BTreeMap::new();
        inner.insert(kw.e_plus, Precedence::Needs(kw.e_plus));
        inner.insert(kw.e_semi, Precedence::Greater);
        inner.insert(kw.e_close, Precedence::Greater);
        inner.insert(kw.e_star, Precedence::Lesser);
        inner.insert(kw.lparen, Precedence::Lesser);
        inner.insert(kw.id, Precedence::Lesser);
        proof { spec = spec.insert(kw.e_plus, inner@); }
        outer.insert(kw.e_plus, inner);
    }
    {
        let mut inner: BTreeMap<i16, Precedence> = BTreeMap::new();
        inner.insert(kw.e_star, Precedence::Needs(kw.e_star));
        inner.insert(kw.e_semi, Precedence::Greater);
        inner.insert(kw.e_close, Precedence::Greater);
        inner.insert(kw.e_plus, Precedence::Greater);
        inner.insert(kw.lparen, Precedence::Lesser);
        inner.insert(kw.id, Precedence::Lesser);
        proof { spec = spec.insert(kw.e_star, inner@); }
        outer.insert(kw.e_star, inner);
    }
    {
        let mut inner: BTreeMap<i16, Precedence> = BTreeMap::new();
        proof { spec = spec.insert(kw.e_close, inner@); }
        outer.insert(kw.e_close, inner);
    }
    {
        let mut inner: BTreeMap<i16, Precedence> = BTreeMap::new();
        proof { spec = spec.insert(kw.e_semi, inner@); }
        outer.insert(kw.e_semi, inner);
    }
    {
        let mut inner: BTreeMap<i16, Precedence> = BTreeMap::new();
        proof { spec = spec.insert(kw.plus, inner@); }
        outer.insert(kw.plus, inner);
    }
    {
        let mut inner: BTreeMap<i16, Precedence> = BTreeMap::new();
        proof { spec = spec.insert(kw.minus, inner@); }
        outer.insert(kw.minus, inner);
    }
    {
        let mut inner: BTreeMap<i16, Precedence> = BTreeMap::new();
        proof { spec = spec.insert(kw.star, inner@); }
        outer.insert(kw.star, inner);
    }
    {
        let mut inner: BTreeMap<i16, Precedence> = BTreeMap::new();
        proof { spec = spec.insert(kw.slash, inner@); }
        outer.insert(kw.slash, inner);
    }
    {
        let mut inner: BTreeMap<i16, Precedence> = BTreeMap::new();
        inner.insert(kw.e_close, Precedence::Needs(kw.id));
        inner.insert(kw.id, Precedence::Lesser);
        inner.insert(kw.lparen, Precedence::Lesser);
        proof { spec = spec.insert(kw.lparen, inner@); }
        outer.insert(kw.lparen, inner);
    }
    {
        let mut inner: BTreeMap<i16, Precedence> = BTreeMap::new();
        proof { spec = spec.insert(kw.rparen, inner@); }
        outer.insert(kw.rparen, inner);
    }
    {
        let mut inner: BTreeMap<i16, Precedence> = BTreeMap::new();
        proof { spec = spec.insert(kw.semicolon, inner@); }
        outer.insert(kw.semicolon, inner);
    }
    {
        let mut inner: BTreeMap<i16, Precedence> = BTreeMap::new();
        inner.insert(kw.rparen, Precedence::Needs(kw.e_close));
        inner.insert(kw.plus, Precedence::Needs(kw.e_plus));
        inner.insert(kw.minus, Precedence::Needs(kw.e_plus));
        inner.insert(kw.star, Precedence::Needs(kw.e_star));
        inner.insert(kw.slash, Precedence::Needs(kw.e_star));
        inner.insert(kw.semicolon, Precedence::Needs(kw.e_semi));
        proof { spec = spec.insert(kw.id, inner@); }
        outer.insert(kw.id, inner);
    }
    assert(precedence_view(outer) =~= spec);
    outer
}

} // verus!
