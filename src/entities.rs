//! Points, symbol roles and precedence relations, with their plain-value views.
use vstd::prelude::*;

verus! {

/// The kind of a literal or of a declared variable, with the literal's value.
/// A floating-point literal keeps its source text.
#[derive(Debug, Clone)]
pub enum VariableType {
    Integer(i32),
    Float(String),
    Character(char),
}

/// The role of a symbol in the symbol table. A declared variable carries its kind.
#[derive(Debug, Clone)]
pub enum Token {
    Und,
    Pred,
    Lit(VariableType),
    Var(Kind),
}

/// The parse state of a point.
#[derive(Debug, PartialEq, Clone)]
pub enum PointState {
    Blank,
    Error(String),
    Token(i16),
    ParsedToken(i16),
}

#[derive(Debug, Clone, PartialEq)]
pub struct MetaData {
    pub line: u32,
    pub raw: String,
}

/// A position-tagged unit of source text with its parse state.
#[derive(Debug, Clone, PartialEq)]
pub struct FPoint {
    pub meta_data: MetaData,
    pub state: PointState,
}

/// A shift/reduce decision between two grammar symbols.
#[derive(Debug, Clone, Copy, PartialEq, Eq, Structural)]
pub enum Precedence {
    Needs(i16),
    Greater,
    Lesser,
}

/// The three kinds of values of the language.
#[derive(Debug, Clone, Copy, PartialEq, Eq, Structural)]
pub enum Kind {
    Integer,
    Float,
    Character,
}

impl VariableType {
    pub open spec fn kind(self) -> Kind {
        match self {
            VariableType::Integer(_) => Kind::Integer,
            VariableType::Float(_) => Kind::Float,
            VariableType::Character(_) => Kind::Character,
        }
    }
}

impl Token {
    /// The kind of a literal or of a declared variable; `None` for other roles.
    pub open spec fn value_kind(self) -> Option<Kind> {
        match self {
            Token::Lit(v) => Some(v.kind()),
            Token::Var(k) => Some(k),
            _ => None,
        }
    }

    pub fn get_value_kind(&self) -> (r: Option<Kind>)
        ensures
            r == self.value_kind(),
    {
        match self {
            Token::Lit(v) => Some(
                match v {
                    VariableType::Integer(_) => Kind::Integer,
                    VariableType::Float(_) => Kind::Float,
                    VariableType::Character(_) => Kind::Character,
                },
            ),
            Token::Var(k) => Some(*k),
            _ => None,
        }
    }
}

/// What a literal's value holds, as plain values.
pub enum ValueView {
    Integer(i32),
    Float(Seq<char>),
    Character(char),
}

/// What a symbol's role holds, as plain values.
pub enum TokenView {
    Und,
    Pred,
    Lit(ValueView),
    Var(Kind),
}

impl View for VariableType {
    type V = ValueView;

    open spec fn view(&self) -> ValueView {
        match self {
            VariableType::Integer(v) => ValueView::Integer(*v),
            VariableType::Float(s) => ValueView::Float(s@),
            VariableType::Character(c) => ValueView::Character(*c),
        }
    }
}

impl View for Token {
    type V = TokenView;

    open spec fn view(&self) -> TokenView {
        match self {
            Token::Und => TokenView::Und,
            Token::Pred => TokenView::Pred,
            Token::Lit(v) => TokenView::Lit(v@),
            Token::Var(k) => TokenView::Var(*k),
        }
    }
}

/// What a point state holds, as plain values.
pub enum StateView {
    Blank,
    Error(Seq<char>),
    Token(i16),
    ParsedToken(i16),
}

/// What a point holds, as plain values.
pub struct PointView {
    pub line: u32,
    pub raw: Seq<char>,
    pub state: StateView,
}

impl View for PointState {
    type V = StateView;

    open spec fn view(&self) -> StateView {
        match self {
            PointState::Blank => StateView::Blank,
            PointState::Error(e) => StateView::Error(e@),
            PointState::Token(k) => StateView::Token(*k),
            PointState::ParsedToken(k) => StateView::ParsedToken(*k),
        }
    }
}

impl View for FPoint {
    type V = PointView;

    open spec fn view(&self) -> PointView {
        PointView { line: self.meta_data.line, raw: self.meta_data.raw@, state: self.state@ }
    }
}

/// The views of a run of points.
pub open spec fn views(v: Seq<FPoint>) -> Seq<PointView> {
    v.map_values(|p: FPoint| p@)
}

/// The views of a run of points grow with the run.
pub broadcast proof fn lemma_views_push(v: Seq<FPoint>, x: FPoint)
    ensures
        #[trigger] views(v.push(x)) == views(v).push(x@),
{
    assert(views(v.push(x)) =~= views(v).push(x@));
}

/// The plain-value forms of the symbols seen on a line.
pub open spec fn sym_views(v: Seq<(i16, Token)>) -> Seq<(i16, TokenView)> {
    v.map_values(|p: (i16, Token)| (p.0, p.1@))
}

pub broadcast proof fn lemma_sym_views_push(v: Seq<(i16, Token)>, x: (i16, Token))
    ensures
        #[trigger] sym_views(v.push(x)) == sym_views(v).push((x.0, x.1@)),
{
    assert(sym_views(v.push(x)) =~= sym_views(v).push((x.0, x.1@)));
}

/// The text of a run of points: each raw text followed by one space.
pub open spec fn joined(pts: Seq<PointView>) -> Seq<char>
    decreases pts.len(),
{
    if pts.len() == 0 {
        Seq::empty()
    } else {
        joined(pts.drop_last()) + pts.last().raw + seq![' ']
    }
}

/// Relies on `String::push`: appends one character.
#[verifier::external_body]
pub(crate) fn push_char(s: &mut String, c: char)
    ensures
        final(s)@ == old(s)@.push(c),
{
    s.push(c);
}

/// The point with a `Token` state turned into a `ParsedToken`; other states stay.
pub open spec fn parsed(p: PointView) -> PointView {
    match p.state {
        StateView::Token(k) => PointView { state: StateView::ParsedToken(k), ..p },
        _ => p,
    }
}

/// One point standing for the points `pts[a..b]`: the line of the first, the
/// texts of all, and the given state.
pub open spec fn merged(pts: Seq<PointView>, a: int, b: int, st: StateView) -> PointView {
    PointView { line: pts[a].line, raw: joined(pts.subrange(a, b)), state: st }
}

impl FPoint {
    /// A copy of the point, with the same view.
    pub fn duplicate(&self) -> (r: FPoint)
        ensures
            r@ == self@,
    {
        let state = match &self.state {
            PointState::Blank => PointState::Blank,
            PointState::Error(e) => PointState::Error(e.clone()),
            PointState::Token(k) => PointState::Token(*k),
            PointState::ParsedToken(k) => PointState::ParsedToken(*k),
        };
        FPoint {
            meta_data: MetaData { line: self.meta_data.line, raw: self.meta_data.raw.clone() },
            state,
        }
    }

    /// A copy of the point whose `Token` state has become `ParsedToken`.
    pub fn to_parsed(&self) -> (r: FPoint)
        ensures
            r@ == parsed(self@),
    {
        let mut p = self.duplicate();
        match self.state {
            PointState::Token(num) => {
                p.state = PointState::ParsedToken(num);
            },
            _ => {},
        }
        p
    }

    /// Marks the point as an error with the given message and returns a copy.
    pub fn to_error(&mut self, err: String) -> (r: FPoint)
        ensures
            final(self)@ == (PointView { state: StateView::Error(err@), ..old(self)@ }),
            r@ == final(self)@,
    {
        self.state = PointState::Error(err);
        self.duplicate()
    }

    /// Merges `points[a..b]` into one point with the given state.
    pub fn merge_span(points: &Vec<FPoint>, a: usize, b: usize, point_state: PointState) -> (r: FPoint)
        requires
            a < b <= points.len(),
        ensures
            r@ == merged(views(points@), a as int, b as int, point_state@),
    {
        let mut raw = String::new();
        let mut k: usize = a;
        while k < b
            invariant
                a <= k <= b <= points.len(),
                raw@ == joined(views(points@).subrange(a as int, k as int)),
            decreases b - k,
        {
            let t = points[k].meta_data.raw.as_str();
            raw.append(t);
            push_char(&mut raw, ' ');
            proof {
                let s = views(points@).subrange(a as int, k + 1);
                assert(s.drop_last() =~= views(points@).subrange(a as int, k as int));
            }
            k = k + 1;
        }
        FPoint { meta_data: MetaData { line: points[a].meta_data.line, raw }, state: point_state }
    }

    /// Merges a non-empty run of points into one with the given state.
    pub fn merge(points: Vec<FPoint>, point_state: PointState) -> (r: FPoint)
        requires
            points.len() > 0,
        ensures
            r@ == merged(views(points@), 0, points.len() as int, point_state@),
    {
        FPoint::merge_span(&points, 0, points.len(), point_state)
    }
}

} // verus!
