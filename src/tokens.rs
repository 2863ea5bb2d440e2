use vstd::prelude::*;
use vstd::string::StrSliceExecFns;

use crate::util::{join, joined, push_char, str_views};

verus! {

/// The bracket scope a token was found in.
#[derive(Debug, PartialEq, Eq, Structural, Copy, Clone)]
pub enum Scope {
    Normal,
    Parens,
    Square,
}

/// A piece of a file name, with the scope it was found in.
#[derive(Debug, PartialEq)]
pub struct Token {
    pub text: String,
    pub scope: Scope,
}

impl Token {
    pub fn new(text: &str, scope: Scope) -> (r: Token)
        ensures
            r.text@ == text@,
            r.scope == scope,
    {
        Token { text: text.to_owned(), scope }
    }

    pub fn normal(text: &str) -> (r: Token)
        ensures
            r.text@ == text@,
            r.scope == Scope::Normal,
    {
        Token::new(text, Scope::Normal)
    }

    pub fn parens(text: &str) -> (r: Token)
        ensures
            r.text@ == text@,
            r.scope == Scope::Parens,
    {
        Token::new(text, Scope::Parens)
    }

    pub fn square(text: &str) -> (r: Token)
        ensures
            r.text@ == text@,
            r.scope == Scope::Square,
    {
        Token::new(text, Scope::Square)
    }
}

/// A token as a value: its text and its scope.
pub type TokenView = (Seq<char>, Scope);

/// The views of a vector of tokens.
pub open spec fn token_views(v: Seq<Token>) -> Seq<TokenView> {
    v.map_values(|t: Token| (t.text@, t.scope))
}

/// The characters that end a token.
pub open spec fn is_separator(c: char) -> bool {
    c == ' ' || c == '.' || c == '_' || c == '-' || c == ':' || c == '(' || c == ')' || c == '['
        || c == ']'
}

/// The scope after separator `c`: brackets open and close scopes.
pub open spec fn scope_after(c: char, s: Scope) -> Scope {
    if c == '(' {
        Scope::Parens
    } else if c == ')' {
        Scope::Normal
    } else if c == '[' {
        Scope::Square
    } else if c == ']' {
        Scope::Normal
    } else {
        s
    }
}

/// The state after reading `cs`: the finished tokens, the text of the token
/// being read, and the current scope.
pub open spec fn scan(cs: Seq<char>) -> (Seq<TokenView>, Seq<char>, Scope)
    decreases cs.len(),
{
    if cs.len() == 0 {
        (Seq::empty(), Seq::empty(), Scope::Normal)
    } else {
        let (toks, cur, sc) = scan(cs.drop_last());
        let c = cs.last();
        if is_separator(c) {
            (if cur.len() > 0 { toks.push((cur, sc)) } else { toks }, Seq::empty(), scope_after(c, sc))
        } else {
            (toks, cur.push(c), sc)
        }
    }
}

/// The tokens of a file name: the non-empty runs of characters between
/// separators, each with the scope it stands in.
pub open spec fn split_tokens(cs: Seq<char>) -> Seq<TokenView> {
    let (toks, cur, sc) = scan(cs);
    if cur.len() > 0 {
        toks.push((cur, sc))
    } else {
        toks
    }
}

/// Splits a file name into tokens at the separators ` . _ - : ( ) [ ]`,
/// tagging each token with the bracket scope it stands in.
pub fn parse_filename(name: &str) -> (r: Vec<Token>)
    ensures
        token_views(r@) == split_tokens(name@),
{
    let n = name.unicode_len();
    let mut tokens: Vec<Token> = Vec::new();
    let mut cur = String::new();
    let mut scope = Scope::Normal;
    let mut i: usize = 0;
    while i < n
        invariant
            n == name@.len(),
            0 <= i <= n,
            (token_views(tokens@), cur@, scope) == scan(name@.subrange(0, i as int)),
        decreases n - i,
    {
        let c = name.get_char(i);
        let ghost pre = name@.subrange(0, i as int);
        assert(name@.subrange(0, i as int + 1).drop_last() =~= pre);
        if c == ' ' || c == '.' || c == '_' || c == '-' || c == ':' || c == '(' || c == ')' || c == '['
            || c == ']' {
            if cur.unicode_len() > 0 {
                let ghost before = tokens@;
                tokens.push(Token { text: cur, scope });
                assert(token_views(tokens@) =~= token_views(before).push((scan(pre).1, scan(pre).2)));
            }
            cur = String::new();
            scope = if c == '(' {
                Scope::Parens
            } else if c == ')' {
                Scope::Normal
            } else if c == '[' {
                Scope::Square
            } else if c == ']' {
                Scope::Normal
            } else {
                scope
            };
        } else {
            push_char(&mut cur, c);
        }
        i = i + 1;
    }
    assert(name@.subrange(0, n as int) =~= name@);
    if cur.unicode_len() > 0 {
        let ghost before = tokens@;
        tokens.push(Token { text: cur, scope });
        assert(token_views(tokens@) =~= token_views(before).push((scan(name@).1, scan(name@).2)));
    }
    tokens
}

/// The tokens that name a quality, a video format or an audio format.
pub open spec fn is_metadata(t: Seq<char>) -> bool {
    ||| t == "2160p"@
    ||| t == "1080p"@
    ||| t == "720p"@
    ||| t == "480p"@
    ||| t == "360p"@
    ||| t == "240p"@
    ||| t == "xvid"@
    ||| t == "divx"@
    ||| t == "h264"@
    ||| t == "x264"@
    ||| t == "h265"@
    ||| t == "x265"@
    ||| t == "10bit"@
    ||| t == "ac3"@
    ||| t == "aac"@
    ||| t == "aac2"@
    ||| t == "dd5"@
    ||| t == "dd2"@
}

fn same_text(t: &String, word: &str) -> (r: bool)
    ensures
        r == (t@ == word@),
{
    *t == word.to_owned()
}

/// Whether the token names a quality, a video format or an audio format.
pub fn metadata(t: &String) -> (r: bool)
    ensures
        r == is_metadata(t@),
{
    same_text(t, "2160p") || same_text(t, "1080p") || same_text(t, "720p") || same_text(t, "480p")
        || same_text(t, "360p") || same_text(t, "240p") || same_text(t, "xvid") || same_text(
        t,
        "divx",
    ) || same_text(t, "h264") || same_text(t, "x264") || same_text(t, "h265") || same_text(
        t,
        "x265",
    ) || same_text(t, "10bit") || same_text(t, "ac3") || same_text(t, "aac") || same_text(t, "aac2")
        || same_text(t, "dd5") || same_text(t, "dd2")
}

/// The index of the first token in the normal scope, if any.
pub open spec fn first_normal(toks: Seq<TokenView>) -> Option<nat>
    decreases toks.len(),
{
    if toks.len() == 0 {
        None
    } else if toks[0].1 == Scope::Normal {
        Some(0)
    } else {
        match first_normal(toks.drop_first()) {
            Some(k) => Some(k + 1),
            None => None,
        }
    }
}

/// The index of the first metadata token, if any.
pub open spec fn first_metadata(toks: Seq<TokenView>) -> Option<nat>
    decreases toks.len(),
{
    if toks.len() == 0 {
        None
    } else if is_metadata(toks[0].0) {
        Some(0)
    } else {
        match first_metadata(toks.drop_first()) {
            Some(k) => Some(k + 1),
            None => None,
        }
    }
}

/// The tokens from the first one in the normal scope up to the first metadata
/// token; none when the metadata comes first.
pub open spec fn clean_tokens(toks: Seq<TokenView>) -> Seq<TokenView> {
    let from = match first_normal(toks) {
        Some(k) => k as int,
        None => 0,
    };
    let to = match first_metadata(toks) {
        Some(k) => k as int,
        None => toks.len() as int,
    };
    if from <= to {
        toks.subrange(from, to)
    } else {
        Seq::empty()
    }
}

proof fn lemma_first_normal(toks: Seq<TokenView>, i: int)
    requires
        0 <= i <= toks.len(),
        forall|k: int| 0 <= k < i ==> toks[k].1 != Scope::Normal,
    ensures
        i < toks.len() && toks[i].1 == Scope::Normal ==> first_normal(toks) == Some(i as nat),
        i == toks.len() ==> first_normal(toks) is None,
    decreases i,
{
    if i > 0 {
        lemma_first_normal(toks.drop_first(), i - 1);
    }
}

proof fn lemma_first_metadata(toks: Seq<TokenView>, i: int)
    requires
        0 <= i <= toks.len(),
        forall|k: int| 0 <= k < i ==> !is_metadata(toks[k].0),
    ensures
        i < toks.len() && is_metadata(toks[i].0) ==> first_metadata(toks) == Some(i as nat),
        i == toks.len() ==> first_metadata(toks) is None,
    decreases i,
{
    if i > 0 {
        lemma_first_metadata(toks.drop_first(), i - 1);
    }
}

/// The tokens of a file name with the leading bracketed tokens and everything
/// from the first metadata token on left out.
pub fn parse_filename_clean(name: &str) -> (r: Vec<Token>)
    ensures
        token_views(r@) == clean_tokens(split_tokens(name@)),
{
    let tokens = parse_filename(name);
    let ghost tv = token_views(tokens@);
    let n = tokens.len();
    let mut from: usize = 0;
    while from < n && tokens[from].scope != Scope::Normal
        invariant
            n == tokens@.len(),
            0 <= from <= n,
            forall|k: int| 0 <= k < from ==> tokens@[k].scope != Scope::Normal,
        decreases n - from,
    {
        from = from + 1;
    }
    proof {
        assert forall|k: int| 0 <= k < from implies tv[k].1 != Scope::Normal by {
            assert(tv[k].1 == tokens@[k].scope);
        }
        lemma_first_normal(tv, from as int);
    }
    if from == n {
        from = 0;
    }
    let mut to: usize = 0;
    while to < n && !metadata(&tokens[to].text)
        invariant
            n == tokens@.len(),
            0 <= to <= n,
            forall|k: int| 0 <= k < to ==> !is_metadata(tokens@[k].text@),
        decreases n - to,
    {
        to = to + 1;
    }
    proof {
        assert forall|k: int| 0 <= k < to implies !is_metadata(tv[k].0) by {
            assert(tv[k].0 == tokens@[k].text@);
        }
        lemma_first_metadata(tv, to as int);
    }
    let mut out: Vec<Token> = Vec::new();
    if from <= to {
        let mut i: usize = from;
        while i < to
            invariant
                n == tokens@.len(),
                from <= i <= to <= n,
                tv == token_views(tokens@),
                out@.len() == i - from,
                token_views(out@) == tv.subrange(from as int, i as int),
            decreases to - i,
        {
            let t = &tokens[i];
            let ghost before = out@;
            out.push(Token { text: t.text.clone(), scope: t.scope });
            assert(token_views(out@) =~= tv.subrange(from as int, i as int + 1)) by {
                assert(token_views(out@).len() == i - from + 1);
                assert(token_views(out@)[i - from] == tv[i as int]);
                assert forall|k: int| 0 <= k < i - from implies token_views(out@)[k] == token_views(before)[k] by {
                    assert(out@[k] == before[k]);
                }
            }
            i = i + 1;
        }
    } else {
        assert(token_views(out@) =~= Seq::<TokenView>::empty());
    }
    out
}

/// The lower-case form of a text.
pub uninterp spec fn lower_of(s: Seq<char>) -> Seq<char>;

/// Relies on `str::to_lowercase`: the result depends on the characters alone.
#[verifier::external_body]
pub(crate) fn lowercase(s: &str) -> (r: String)
    ensures
        r@ == lower_of(s@),
{
    s.to_lowercase()
}

/// The texts of a sequence of tokens.
pub open spec fn texts(toks: Seq<TokenView>) -> Seq<Seq<char>> {
    toks.map_values(|t: TokenView| t.0)
}

/// The texts of the tokens, borrowed.
pub fn token_texts(tokens: &Vec<Token>) -> (r: Vec<&str>)
    ensures
        str_views(r@) == texts(token_views(tokens@)),
{
    let mut parts: Vec<&str> = Vec::new();
    let mut i: usize = 0;
    while i < tokens.len()
        invariant
            0 <= i <= tokens@.len(),
            parts@.len() == i,
            str_views(parts@) == texts(token_views(tokens@)).subrange(0, i as int),
        decreases tokens@.len() - i,
    {
        let piece = tokens[i].text.as_str();
        let ghost before = parts@;
        parts.push(piece);
        assert(str_views(parts@) =~= texts(token_views(tokens@)).subrange(0, i as int + 1)) by {
            assert(str_views(parts@)[i as int] == piece@);
            assert forall|k: int| 0 <= k < i implies str_views(parts@)[k] == str_views(before)[k] by {
                assert(parts@[k] == before[k]);
            }
        }
        i = i + 1;
    }
    assert(texts(token_views(tokens@)).subrange(0, i as int) =~= texts(token_views(tokens@)));
    parts
}

/// The cleaned tokens of the lower-cased name, joined by single spaces.
pub fn convert_filename(filename: &str) -> (r: String)
    ensures
        r@ == joined(texts(clean_tokens(split_tokens(lower_of(filename@)))), seq![' ']),
{
    let lower = lowercase(filename);
    let tokens = parse_filename_clean(lower.as_str());
    let parts = token_texts(&tokens);
    let space = " ";
    proof {
        reveal_strlit(" ");
        assert(space@ =~= seq![' ']);
    }
    let sl = parts.as_slice();
    assert(sl@ == parts@);
    join(sl, space)
}

} // verus!
