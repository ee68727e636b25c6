//! Splits a document into structural and property tokens.
use vstd::prelude::*;
use crate::error::ICalError;
use crate::text::{
    chars_equal, find_char, index_of, lemma_index_of, lemma_split_on_nonempty,
    split_chars, split_on, str_chars, sub_chars, unescape, unescape_chars, unfold, unfold_chars,
    views,
};

verus! {

/// A `NAME=VALUE` parameter of a property line.
pub ghost struct ParamV {
    pub name: Seq<char>,
    pub value: Seq<char>,
}

/// What a line of the document stands for.
pub ghost enum TokenV {
    Begin(Seq<char>),
    End(Seq<char>),
    Property { name: Seq<char>, params: Seq<ParamV>, value: Seq<char> },
}

pub struct Param {
    pub name: Vec<char>,
    pub value: Vec<char>,
}

impl View for Param {
    type V = ParamV;

    open spec fn view(&self) -> ParamV {
        ParamV { name: self.name@, value: self.value@ }
    }
}

pub open spec fn params_view(ps: Seq<Param>) -> Seq<ParamV> {
    ps.map_values(|p: Param| p@)
}

/// One token: a `BEGIN:` or `END:` marker, or a property with its parameters
/// and its unescaped value.
pub enum Token {
    Begin(Vec<char>),
    End(Vec<char>),
    Property { name: Vec<char>, params: Vec<Param>, value: String },
}

impl View for Token {
    type V = TokenV;

    open spec fn view(&self) -> TokenV {
        match self {
            Token::Begin(n) => TokenV::Begin(n@),
            Token::End(n) => TokenV::End(n@),
            Token::Property { name, params, value } => TokenV::Property {
                name: name@,
                params: params_view(params@),
                value: value@,
            },
        }
    }
}

pub open spec fn tokens_view(ts: Seq<Token>) -> Seq<TokenV> {
    ts.map_values(|t: Token| t@)
}

pub open spec fn begin_word() -> Seq<char> {
    seq!['B', 'E', 'G', 'I', 'N']
}

pub open spec fn end_word() -> Seq<char> {
    seq!['E', 'N', 'D']
}

/// A line without the carriage return that ends it, if any.
pub open spec fn strip_cr(l: Seq<char>) -> Seq<char> {
    if l.len() > 0 && l.last() == '\r' {
        l.drop_last()
    } else {
        l
    }
}

pub open spec fn is_name_char(c: char) -> bool {
    ('A' <= c && c <= 'Z') || ('a' <= c && c <= 'z') || ('0' <= c && c <= '9') || c == '-'
}

/// A property or parameter name: letters, digits and dashes, at least one.
pub open spec fn valid_name(n: Seq<char>) -> bool {
    n.len() > 0 && forall|i: int| 0 <= i < n.len() ==> is_name_char(#[trigger] n[i])
}

/// A parameter written `NAME=VALUE`.
pub open spec fn param_of(p: Seq<char>) -> Option<ParamV> {
    let k = index_of(p, '=');
    if k < p.len() && valid_name(p.subrange(0, k)) {
        Some(ParamV { name: p.subrange(0, k), value: p.subrange(k + 1, p.len() as int) })
    } else {
        None
    }
}

/// All parameters of a list, or `None` where one is malformed.
pub open spec fn params_of(pieces: Seq<Seq<char>>) -> Option<Seq<ParamV>>
    decreases pieces.len(),
{
    if pieces.len() == 0 {
        Some(Seq::<ParamV>::empty())
    } else {
        match (params_of(pieces.drop_last()), param_of(pieces.last())) {
            (Some(ps), Some(p)) => Some(ps.push(p)),
            _ => None,
        }
    }
}

/// The token of one line: `Ok(None)` for a blank line.
pub open spec fn line_token(raw: Seq<char>) -> Result<Option<TokenV>, ICalError> {
    let l = strip_cr(raw);
    if l.len() == 0 {
        Ok(None)
    } else {
        let c = index_of(l, ':');
        if c == l.len() {
            Err(ICalError::TokenParse)
        } else {
            let head = l.subrange(0, c);
            let value = l.subrange(c + 1, l.len() as int);
            let n = index_of(head, ';');
            let name = head.subrange(0, n);
            let ps = if n == head.len() {
                Some(Seq::<ParamV>::empty())
            } else {
                params_of(split_on(head.subrange(n + 1, head.len() as int), ';'))
            };
            if !valid_name(name) || ps is None {
                Err(ICalError::TokenParse)
            } else if name == begin_word() {
                Ok(Some(TokenV::Begin(value)))
            } else if name == end_word() {
                Ok(Some(TokenV::End(value)))
            } else {
                match unescape(value) {
                    Some(v) => Ok(Some(TokenV::Property { name, params: ps->0, value: v })),
                    None => Err(ICalError::TokenParse),
                }
            }
        }
    }
}

/// The tokens of a sequence of lines; the first failing line decides the error.
pub open spec fn lex_lines(ls: Seq<Seq<char>>) -> Result<Seq<TokenV>, ICalError>
    decreases ls.len(),
{
    if ls.len() == 0 {
        Ok(Seq::<TokenV>::empty())
    } else {
        match lex_lines(ls.drop_last()) {
            Err(e) => Err(e),
            Ok(ts) => match line_token(ls.last()) {
                Err(e) => Err(e),
                Ok(None) => Ok(ts),
                Ok(Some(t)) => Ok(ts.push(t)),
            },
        }
    }
}

/// The tokens of a whole document: unfolded, split at line feeds, then lexed
/// line by line.
pub open spec fn lex(text: Seq<char>) -> Result<Seq<TokenV>, ICalError> {
    lex_lines(split_on(unfold(text), '\n'))
}

fn name_char(c: char) -> (r: bool)
    ensures
        r == is_name_char(c),
{
    ('A' <= c && c <= 'Z') || ('a' <= c && c <= 'z') || ('0' <= c && c <= '9') || c == '-'
}

fn is_valid_name(n: &Vec<char>) -> (r: bool)
    ensures
        r == valid_name(n@),
{
    if n.len() == 0 {
        return false;
    }
    let mut i: usize = 0;
    while i < n.len()
        invariant
            i <= n.len(),
            forall|j: int| 0 <= j < i ==> is_name_char(#[trigger] n@[j]),
        decreases n.len() - i,
    {
        if !name_char(n[i]) {
            return false;
        }
        i = i + 1;
    }
    true
}

fn parse_param(p: &Vec<char>) -> (r: Option<Param>)
    ensures
        match r {
            Some(q) => param_of(p@) == Some(q@),
            None => param_of(p@) is None,
        },
{
    let k = find_char(p, '=');
    proof { lemma_index_of(p@, '='); }
    if k >= p.len() {
        return None;
    }
    let name = sub_chars(p, 0, k);
    if !is_valid_name(&name) {
        return None;
    }
    let value = sub_chars(p, k + 1, p.len());
    Some(Param { name, value })
}

fn parse_params(pieces: &Vec<Vec<char>>) -> (r: Option<Vec<Param>>)
    ensures
        match r {
            Some(ps) => params_of(views(pieces@)) == Some(params_view(ps@)),
            None => params_of(views(pieces@)) is None,
        },
{
    let mut out: Vec<Param> = Vec::new();
    let mut i: usize = 0;
    while i < pieces.len()
        invariant
            i <= pieces.len(),
            params_of(views(pieces@).subrange(0, i as int)) == Some(params_view(out@)),
        decreases pieces.len() - i,
    {
        proof {
            assert(views(pieces@).subrange(0, i as int + 1).drop_last() =~= views(pieces@).subrange(0, i as int));
        }
        match parse_param(&pieces[i]) {
            Some(q) => {
                let ghost prev = out@;
                out.push(q);
                assert(params_view(out@) =~= params_view(prev).push(q@));
            },
            None => {
                proof { lemma_params_of_prefix(views(pieces@), i as int + 1); }
                assert(views(pieces@).subrange(0, pieces.len() as int) =~= views(pieces@));
                return None;
            },
        }
        i = i + 1;
    }
    assert(views(pieces@).subrange(0, pieces.len() as int) =~= views(pieces@));
    Some(out)
}

/// A malformed parameter anywhere in a list spoils the whole list.
proof fn lemma_params_of_prefix(ps: Seq<Seq<char>>, i: int)
    requires
        0 <= i <= ps.len(),
        params_of(ps.subrange(0, i)) is None,
    ensures
        params_of(ps) is None,
    decreases ps.len() - i,
{
    if i < ps.len() {
        assert(ps.subrange(0, i + 1).drop_last() =~= ps.subrange(0, i));
        lemma_params_of_prefix(ps, i + 1);
    } else {
        assert(ps.subrange(0, i) =~= ps);
    }
}

/// A failure on some line is the failure of the whole document.
proof fn lemma_lex_lines_prefix(ls: Seq<Seq<char>>, i: int, e: ICalError)
    requires
        0 <= i <= ls.len(),
        lex_lines(ls.subrange(0, i)) == Err::<Seq<TokenV>, ICalError>(e),
    ensures
        lex_lines(ls) == Err::<Seq<TokenV>, ICalError>(e),
    decreases ls.len() - i,
{
    if i < ls.len() {
        assert(ls.subrange(0, i + 1).drop_last() =~= ls.subrange(0, i));
        lemma_lex_lines_prefix(ls, i + 1, e);
    } else {
        assert(ls.subrange(0, i) =~= ls);
    }
}

/// Lexes one line of an unfolded document.
pub fn lex_line(raw: &Vec<char>) -> (r: Result<Option<Token>, ICalError>)
    ensures
        match r {
            Ok(Some(t)) => line_token(raw@) == Ok::<Option<TokenV>, ICalError>(Some(t@)),
            Ok(None) => line_token(raw@) == Ok::<Option<TokenV>, ICalError>(None),
            Err(e) => line_token(raw@) == Err::<Option<TokenV>, ICalError>(e),
        },
{
    let len = if raw.len() > 0 && raw[raw.len() - 1] == '\r' {
        raw.len() - 1
    } else {
        raw.len()
    };
    let l = sub_chars(raw, 0, len);
    assert(l@ =~= strip_cr(raw@));
    if l.len() == 0 {
        return Ok(None);
    }
    let c = find_char(&l, ':');
    proof { lemma_index_of(l@, ':'); }
    if c == l.len() {
        return Err(ICalError::TokenParse);
    }
    let head = sub_chars(&l, 0, c);
    let value = sub_chars(&l, c + 1, l.len());
    let n = find_char(&head, ';');
    proof { lemma_index_of(head@, ';'); }
    let name = sub_chars(&head, 0, n);
    let params = if n == head.len() {
        let ps: Vec<Param> = Vec::new();
        assert(params_view(ps@) =~= Seq::<ParamV>::empty());
        Some(ps)
    } else {
        let rest = sub_chars(&head, n + 1, head.len());
        let pieces = split_chars(&rest, ';');
        parse_params(&pieces)
    };
    if !is_valid_name(&name) {
        return Err(ICalError::TokenParse);
    }
    let params = match params {
        Some(ps) => ps,
        None => {
            return Err(ICalError::TokenParse);
        },
    };
    proof {
        reveal_with_fuel(split_on, 1);
    }
    if chars_equal(&name, &['B', 'E', 'G', 'I', 'N']) {
        assert(name@ == begin_word());
        return Ok(Some(Token::Begin(value)));
    }
    assert(['B', 'E', 'G', 'I', 'N']@ =~= begin_word());
    if chars_equal(&name, &['E', 'N', 'D']) {
        assert(name@ == end_word());
        return Ok(Some(Token::End(value)));
    }
    assert(['E', 'N', 'D']@ =~= end_word());
    match unescape_chars(&value) {
        Some(v) => Ok(Some(Token::Property { name, params, value: v })),
        None => Err(ICalError::TokenParse),
    }
}

/// Splits a document into its tokens, or fails with `TokenParse` on the first
/// line that is not a well-formed content line.
pub fn tokenize(text: &str) -> (r: Result<Vec<Token>, ICalError>)
    ensures
        match r {
            Ok(ts) => lex(text@) == Ok::<Seq<TokenV>, ICalError>(tokens_view(ts@)),
            Err(e) => lex(text@) == Err::<Seq<TokenV>, ICalError>(e),
        },
{
    let chars = str_chars(text);
    let unfolded = unfold_chars(&chars);
    let lines = split_chars(&unfolded, '\n');
    let ghost ls = views(lines@);
    let mut out: Vec<Token> = Vec::new();
    let mut i: usize = 0;
    assert(ls.subrange(0, 0) =~= Seq::<Seq<char>>::empty());
    assert(tokens_view(out@) =~= Seq::<TokenV>::empty());
    while i < lines.len()
        invariant
            i <= lines.len(),
            ls == views(lines@),
            ls == split_on(unfold(text@), '\n'),
            lex_lines(ls.subrange(0, i as int)) == Ok::<Seq<TokenV>, ICalError>(tokens_view(out@)),
        decreases lines.len() - i,
    {
        assert(ls.subrange(0, i as int + 1).drop_last() =~= ls.subrange(0, i as int));
        assert(ls.subrange(0, i as int + 1).last() == lines@[i as int]@);
        match lex_line(&lines[i]) {
            Ok(Some(t)) => {
                let ghost prev = out@;
                out.push(t);
                assert(tokens_view(out@) =~= tokens_view(prev).push(t@));
            },
            Ok(None) => {},
            Err(e) => {
                proof { lemma_lex_lines_prefix(ls, i as int + 1, e); }
                return Err(e);
            },
        }
        i = i + 1;
    }
    assert(ls.subrange(0, lines.len() as int) =~= ls);
    Ok(out)
}

} // verus!
