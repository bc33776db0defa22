//! Tokenization of the markup text. A document is a sequence of tokens: text
//! runs, tags (start, empty, end) with their parsed name and attributes, and
//! opaque constructs passed through untouched (comments, processing
//! instructions, document type declarations, character data sections). Every
//! token records the exact characters it was read from, so that tokens the
//! later transform leaves alone reproduce the input verbatim.
//!
//! The grammar is given by spec functions (`lex_token_at`, `lex_from`); the
//! executable lexer is proved to return exactly what the grammar says.

use vstd::prelude::*;

verus! {

#[derive(Copy, Clone, Debug, PartialEq, Eq, Structural)]
pub enum TagKind {
    Start,
    Empty,
    End,
}

pub struct Attr {
    pub key: Vec<char>,
    pub value: Vec<char>,
}

pub ghost struct AttrModel {
    pub key: Seq<char>,
    pub value: Seq<char>,
}

impl View for Attr {
    type V = AttrModel;

    open spec fn view(&self) -> AttrModel {
        AttrModel { key: self.key@, value: self.value@ }
    }
}

impl DeepView for Attr {
    type V = AttrModel;

    open spec fn deep_view(&self) -> AttrModel {
        self.view()
    }
}

pub enum Token {
    Text { raw: Vec<char> },
    Other { raw: Vec<char> },
    Tag { raw: Vec<char>, name: Vec<char>, attrs: Vec<Attr>, kind: TagKind },
}

pub ghost enum TokenModel {
    Text { raw: Seq<char> },
    Other { raw: Seq<char> },
    Tag { raw: Seq<char>, name: Seq<char>, attrs: Seq<AttrModel>, kind: TagKind },
}

impl View for Token {
    type V = TokenModel;

    open spec fn view(&self) -> TokenModel {
        match self {
            Token::Text { raw } => TokenModel::Text { raw: raw@ },
            Token::Other { raw } => TokenModel::Other { raw: raw@ },
            Token::Tag { raw, name, attrs, kind } => TokenModel::Tag {
                raw: raw@,
                name: name@,
                attrs: attrs.deep_view(),
                kind: *kind,
            },
        }
    }
}

impl DeepView for Token {
    type V = TokenModel;

    open spec fn deep_view(&self) -> TokenModel {
        self.view()
    }
}

/// The exact characters a token was read from.
pub open spec fn raw_of(t: TokenModel) -> Seq<char> {
    match t {
        TokenModel::Text { raw } => raw,
        TokenModel::Other { raw } => raw,
        TokenModel::Tag { raw, .. } => raw,
    }
}

/// Concatenation of the raw characters of a token sequence.
pub open spec fn concat_raws(ts: Seq<TokenModel>) -> Seq<char>
    decreases ts.len(),
{
    if ts.len() == 0 {
        Seq::empty()
    } else {
        raw_of(ts[0]) + concat_raws(ts.drop_first())
    }
}

pub open spec fn is_ws(c: char) -> bool {
    c == ' ' || c == '\t' || c == '\n' || c == '\r'
}

/// Characters allowed in a tag or attribute name.
pub open spec fn is_name_char(c: char) -> bool {
    !is_ws(c) && c != '>' && c != '/' && c != '<' && c != '=' && c != '"' && c != '\''
}

/// First position at or after `i` that does not hold a name character.
pub open spec fn scan_name_end(s: Seq<char>, i: int) -> int
    decreases s.len() - i,
    when 0 <= i <= s.len()
{
    if i == s.len() {
        i
    } else if is_name_char(s[i]) {
        scan_name_end(s, i + 1)
    } else {
        i
    }
}

/// First position at or after `i` that does not hold whitespace.
pub open spec fn scan_ws_end(s: Seq<char>, i: int) -> int
    decreases s.len() - i,
    when 0 <= i <= s.len()
{
    if i == s.len() {
        i
    } else if is_ws(s[i]) {
        scan_ws_end(s, i + 1)
    } else {
        i
    }
}

/// First position at or after `i` holding `c`, or the length if there is none.
pub open spec fn scan_to_char(s: Seq<char>, i: int, c: char) -> int
    decreases s.len() - i,
    when 0 <= i <= s.len()
{
    if i == s.len() {
        i
    } else if s[i] == c {
        i
    } else {
        scan_to_char(s, i + 1, c)
    }
}

pub proof fn lemma_scan_name_end(s: Seq<char>, i: int)
    requires
        0 <= i <= s.len(),
    ensures
        i <= scan_name_end(s, i) <= s.len(),
    decreases s.len() - i,
{
    if i < s.len() && is_name_char(s[i]) {
        lemma_scan_name_end(s, i + 1);
    }
}

pub proof fn lemma_scan_ws_end(s: Seq<char>, i: int)
    requires
        0 <= i <= s.len(),
    ensures
        i <= scan_ws_end(s, i) <= s.len(),
    decreases s.len() - i,
{
    if i < s.len() && is_ws(s[i]) {
        lemma_scan_ws_end(s, i + 1);
    }
}

pub proof fn lemma_scan_to_char(s: Seq<char>, i: int, c: char)
    requires
        0 <= i <= s.len(),
    ensures
        i <= scan_to_char(s, i, c) <= s.len(),
        scan_to_char(s, i, c) < s.len() ==> s[scan_to_char(s, i, c)] == c,
    decreases s.len() - i,
{
    if i < s.len() && s[i] != c {
        lemma_scan_to_char(s, i + 1, c);
    }
}

/// The attribute list of a tag, read from position `i` (just after the tag
/// name) up to the closing delimiter. Yields the attributes in order, the
/// tag kind, and the position just past the '>'.
pub open spec fn lex_attrs_at(s: Seq<char>, i: int) -> Result<(Seq<AttrModel>, TagKind, int), ()>
    decreases s.len() - i,
    when 0 <= i <= s.len()
    via lex_attrs_at_decreases
{
    let j = scan_ws_end(s, i);
    if j == s.len() {
        Err(())
    } else if s[j] == '>' {
        Ok((Seq::empty(), TagKind::Start, j + 1))
    } else if s[j] == '/' {
        if j + 1 < s.len() && s[j + 1] == '>' {
            Ok((Seq::empty(), TagKind::Empty, j + 2))
        } else {
            Err(())
        }
    } else {
        let k = scan_name_end(s, j);
        if k == j {
            Err(())
        } else {
            let m = scan_ws_end(s, k);
            if m == s.len() || s[m] != '=' {
                Err(())
            } else {
                let p = scan_ws_end(s, m + 1);
                if p == s.len() || !(s[p] == '"' || s[p] == '\'') {
                    Err(())
                } else {
                    let q = scan_to_char(s, p + 1, s[p]);
                    if q == s.len() {
                        Err(())
                    } else {
                        match lex_attrs_at(s, q + 1) {
                            Ok((attrs, kind, end)) => Ok(
                                (
                                    seq![
                                        AttrModel {
                                            key: s.subrange(j, k),
                                            value: s.subrange(p + 1, q),
                                        },
                                    ] + attrs,
                                    kind,
                                    end,
                                ),
                            ),
                            Err(e) => Err(e),
                        }
                    }
                }
            }
        }
    }
}

#[via_fn]
proof fn lex_attrs_at_decreases(s: Seq<char>, i: int) {
    lemma_scan_ws_end(s, i);
    let j = scan_ws_end(s, i);
    if j < s.len() && s[j] != '>' && s[j] != '/' {
        lemma_scan_name_end(s, j);
        let k = scan_name_end(s, j);
        if k != j {
            lemma_scan_ws_end(s, k);
            let m = scan_ws_end(s, k);
            if m < s.len() && s[m] == '=' {
                lemma_scan_ws_end(s, m + 1);
                let p = scan_ws_end(s, m + 1);
                if p < s.len() && (s[p] == '"' || s[p] == '\'') {
                    lemma_scan_to_char(s, p + 1, s[p]);
                }
            }
        }
    }
}

pub proof fn lemma_lex_attrs_at(s: Seq<char>, i: int)
    requires
        0 <= i <= s.len(),
    ensures
        match lex_attrs_at(s, i) {
            Ok((attrs, kind, end)) => i < end <= s.len() && kind != TagKind::End,
            Err(_) => true,
        },
    decreases s.len() - i,
{
    lemma_scan_ws_end(s, i);
    let j = scan_ws_end(s, i);
    if j < s.len() && s[j] != '>' && s[j] != '/' {
        lemma_scan_name_end(s, j);
        let k = scan_name_end(s, j);
        if k != j {
            lemma_scan_ws_end(s, k);
            let m = scan_ws_end(s, k);
            if m < s.len() && s[m] == '=' {
                lemma_scan_ws_end(s, m + 1);
                let p = scan_ws_end(s, m + 1);
                if p < s.len() && (s[p] == '"' || s[p] == '\'') {
                    lemma_scan_to_char(s, p + 1, s[p]);
                    let q = scan_to_char(s, p + 1, s[p]);
                    if q < s.len() {
                        lemma_lex_attrs_at(s, q + 1);
                    }
                }
            }
        }
    }
}

/// Whether two attributes of the list share a key — malformed markup.
pub open spec fn has_dup_key(attrs: Seq<AttrModel>) -> bool {
    exists|i: int, j: int| 0 <= i < j < attrs.len() && (#[trigger] attrs[i]).key == (
    #[trigger] attrs[j]).key
}

/// The token beginning at position `i`, and the position just past it.
pub open spec fn lex_token_at(s: Seq<char>, i: int) -> Result<(TokenModel, int), ()>
    recommends
        0 <= i < s.len(),
{
    if s[i] != '<' {
        let j = scan_to_char(s, i, '<');
        Ok((TokenModel::Text { raw: s.subrange(i, j) }, j))
    } else if i + 1 < s.len() && s[i + 1] == '/' {
        let k = scan_name_end(s, i + 2);
        if k == i + 2 {
            Err(())
        } else {
            let m = scan_ws_end(s, k);
            if m == s.len() || s[m] != '>' {
                Err(())
            } else {
                Ok(
                    (
                        TokenModel::Tag {
                            raw: s.subrange(i, m + 1),
                            name: s.subrange(i + 2, k),
                            attrs: Seq::empty(),
                            kind: TagKind::End,
                        },
                        m + 1,
                    ),
                )
            }
        }
    } else if i + 1 < s.len() && s[i + 1] == '!' {
        if crate::text::sub_at(s, seq!['-', '-'], i + 2) {
            match crate::text::find_sub(s, seq!['-', '-', '>'], i + 4) {
                Some(j) => Ok((TokenModel::Other { raw: s.subrange(i, j + 3) }, j + 3)),
                None => Err(()),
            }
        } else if crate::text::sub_at(s, seq!['[', 'C', 'D', 'A', 'T', 'A', '['], i + 2) {
            match crate::text::find_sub(s, seq![']', ']', '>'], i + 9) {
                Some(j) => Ok((TokenModel::Other { raw: s.subrange(i, j + 3) }, j + 3)),
                None => Err(()),
            }
        } else {
            let j = scan_to_char(s, i + 2, '>');
            if j == s.len() {
                Err(())
            } else {
                Ok((TokenModel::Other { raw: s.subrange(i, j + 1) }, j + 1))
            }
        }
    } else if i + 1 < s.len() && s[i + 1] == '?' {
        match crate::text::find_sub(s, seq!['?', '>'], i + 2) {
            Some(j) => Ok((TokenModel::Other { raw: s.subrange(i, j + 2) }, j + 2)),
            None => Err(()),
        }
    } else {
        let k = scan_name_end(s, i + 1);
        if k == i + 1 {
            Err(())
        } else {
            match lex_attrs_at(s, k) {
                Ok((attrs, kind, end)) => if has_dup_key(attrs) {
                    Err(())
                } else {
                    Ok(
                        (
                            TokenModel::Tag {
                                raw: s.subrange(i, end),
                                name: s.subrange(i + 1, k),
                                attrs,
                                kind,
                            },
                            end,
                        ),
                    )
                },
                Err(e) => Err(e),
            }
        }
    }
}

pub proof fn lemma_lex_token_at(s: Seq<char>, i: int)
    requires
        0 <= i < s.len(),
    ensures
        match lex_token_at(s, i) {
            Ok((t, j)) => i < j <= s.len() && raw_of(t) == s.subrange(i, j) && (t is Tag
                && t->Tag_kind == TagKind::End ==> t->Tag_attrs.len() == 0),
            Err(_) => true,
        },
{
    if s[i] != '<' {
        lemma_scan_to_char(s, i, '<');
        assert(scan_to_char(s, i, '<') > i);
    } else if i + 1 < s.len() && s[i + 1] == '/' {
        lemma_scan_name_end(s, i + 2);
        let k = scan_name_end(s, i + 2);
        if k != i + 2 {
            lemma_scan_ws_end(s, k);
        }
    } else if i + 1 < s.len() && s[i + 1] == '!' {
        if crate::text::sub_at(s, seq!['-', '-'], i + 2) {
            crate::text::lemma_find_sub_props(s, seq!['-', '-', '>'], i + 4);
        } else if crate::text::sub_at(s, seq!['[', 'C', 'D', 'A', 'T', 'A', '['], i + 2) {
            crate::text::lemma_find_sub_props(s, seq![']', ']', '>'], i + 9);
        } else {
            lemma_scan_to_char(s, i + 2, '>');
        }
    } else if i + 1 < s.len() && s[i + 1] == '?' {
        crate::text::lemma_find_sub_props(s, seq!['?', '>'], i + 2);
    } else {
        lemma_scan_name_end(s, i + 1);
        let k = scan_name_end(s, i + 1);
        if k != i + 1 {
            lemma_lex_attrs_at(s, k);
        }
    }
}

/// The tokens of `s` from position `i` to the end.
pub open spec fn lex_from(s: Seq<char>, i: int) -> Result<Seq<TokenModel>, ()>
    decreases s.len() - i,
    when 0 <= i <= s.len()
    via lex_from_decreases
{
    if i == s.len() {
        Ok(Seq::empty())
    } else {
        match lex_token_at(s, i) {
            Ok((t, j)) => match lex_from(s, j) {
                Ok(ts) => Ok(seq![t] + ts),
                Err(e) => Err(e),
            },
            Err(e) => Err(e),
        }
    }
}

#[via_fn]
proof fn lex_from_decreases(s: Seq<char>, i: int) {
    if i < s.len() {
        lemma_lex_token_at(s, i);
    }
}

/// The token sequence of the whole document.
pub open spec fn spec_lex(s: Seq<char>) -> Result<Seq<TokenModel>, ()> {
    lex_from(s, 0)
}

/// Whether the tags of the token sequence nest properly, starting from the
/// given stack of open element names: every end tag closes the innermost open
/// element, and nothing stays open at the end.
pub open spec fn balanced_from(ts: Seq<TokenModel>, stack: Seq<Seq<char>>) -> bool
    decreases ts.len(),
{
    if ts.len() == 0 {
        stack.len() == 0
    } else {
        match ts[0] {
            TokenModel::Tag { name, kind, .. } => {
                if kind == TagKind::Start {
                    balanced_from(ts.drop_first(), stack.push(name))
                } else if kind == TagKind::End {
                    stack.len() > 0 && stack.last() == name && balanced_from(
                        ts.drop_first(),
                        stack.drop_last(),
                    )
                } else {
                    balanced_from(ts.drop_first(), stack)
                }
            },
            _ => balanced_from(ts.drop_first(), stack),
        }
    }
}

/// Whether the document's tags nest properly.
pub open spec fn balanced(ts: Seq<TokenModel>) -> bool {
    balanced_from(ts, Seq::empty())
}

/// Checks that the document's tags nest properly: each end tag must close the
/// innermost open element, and every element must be closed.
pub fn check_balanced(ts: &Vec<Token>) -> (r: bool)
    ensures
        r == balanced(ts.deep_view()),
{
    let ghost dv = ts.deep_view();
    let n = ts.len();
    let mut stack: Vec<Vec<char>> = Vec::new();
    let mut i: usize = 0;
    proof {
        assert(dv.skip(0) =~= dv);
        assert(stack.deep_view() =~= Seq::<Seq<char>>::empty());
    }
    while i < n
        invariant
            0 <= i <= n,
            n == ts@.len(),
            dv == ts.deep_view(),
            balanced(dv) == balanced_from(dv.skip(i as int), stack.deep_view()),
        decreases n - i,
    {
        proof {
            assert(dv.skip(i as int)[0] == dv[i as int]);
            assert(dv.skip(i as int).drop_first() =~= dv.skip(i + 1));
        }
        match &ts[i] {
            Token::Tag { name, kind, .. } => {
                if matches!(kind, TagKind::Start) {
                    let ghost pre = stack.deep_view();
                    stack.push(copy_range(name.as_slice(), 0, name.len()));
                    proof {
                        assert(name@.subrange(0, name@.len() as int) =~= name@);
                        assert(stack.deep_view() =~~= pre.push(name@));
                    }
                } else if matches!(kind, TagKind::End) {
                    let ghost pre = stack.deep_view();
                    let top = match stack.pop() {
                        Some(t) => t,
                        None => {
                            return false;
                        },
                    };
                    proof {
                        assert(stack.deep_view() =~~= pre.drop_last());
                        assert(top@ =~= pre.last());
                    }
                    if !chars_eq(top.as_slice(), name.as_slice()) {
                        return false;
                    }
                }
            },
            _ => {},
        }
        i += 1;
    }
    proof {
        assert(dv.skip(n as int).len() == 0);
    }
    stack.len() == 0
}

/// The raw characters of the tokens of `s` concatenate back to `s`: the lexer
/// loses nothing and invents nothing.
/// Concatenating raw characters distributes over concatenating tokens.
pub proof fn lemma_concat_raws_app(xs: Seq<TokenModel>, ys: Seq<TokenModel>)
    ensures
        concat_raws(xs + ys) == concat_raws(xs) + concat_raws(ys),
    decreases xs.len(),
{
    if xs.len() == 0 {
        assert(xs + ys =~= ys);
        assert(concat_raws(xs) + concat_raws(ys) =~= concat_raws(ys));
    } else {
        assert((xs + ys)[0] == xs[0]);
        assert((xs + ys).drop_first() =~= xs.drop_first() + ys);
        lemma_concat_raws_app(xs.drop_first(), ys);
        assert(raw_of(xs[0]) + (concat_raws(xs.drop_first()) + concat_raws(ys)) =~= (raw_of(
            xs[0],
        ) + concat_raws(xs.drop_first())) + concat_raws(ys));
    }
}

/// Every end tag the lexer yields carries no attributes.
pub proof fn lemma_lex_end_tags_bare(s: Seq<char>, i: int)
    requires
        0 <= i <= s.len(),
        lex_from(s, i) is Ok,
    ensures
        forall|j: int|
            0 <= j < lex_from(s, i)->Ok_0.len() ==> ((#[trigger] lex_from(s, i)->Ok_0[j]) is Tag
                && lex_from(s, i)->Ok_0[j]->Tag_kind == TagKind::End ==> lex_from(
                s,
                i,
            )->Ok_0[j]->Tag_attrs.len() == 0),
    decreases s.len() - i,
{
    if i < s.len() {
        let (t, j2) = lex_token_at(s, i)->Ok_0;
        lemma_lex_token_at(s, i);
        lemma_lex_end_tags_bare(s, j2);
        let rest = lex_from(s, j2)->Ok_0;
        let ts = lex_from(s, i)->Ok_0;
        assert(ts == seq![t] + rest);
        assert forall|j: int|
            0 <= j < ts.len() && (#[trigger] ts[j]) is Tag && ts[j]->Tag_kind
                == TagKind::End implies ts[j]->Tag_attrs.len() == 0 by {
            if j == 0 {
                assert(ts[0] == t);
            } else {
                assert(ts[j] == rest[j - 1]);
            }
        }
    }
}

pub proof fn lemma_lex_exact(s: Seq<char>, i: int)
    requires
        0 <= i <= s.len(),
        lex_from(s, i) is Ok,
    ensures
        concat_raws(lex_from(s, i)->Ok_0) == s.subrange(i, s.len() as int),
    decreases s.len() - i,
{
    if i == s.len() {
        assert(concat_raws(lex_from(s, i)->Ok_0) =~= s.subrange(i, s.len() as int));
    } else {
        let (t, j) = lex_token_at(s, i)->Ok_0;
        lemma_lex_token_at(s, i);
        lemma_lex_exact(s, j);
        let ts = lex_from(s, j)->Ok_0;
        assert((seq![t] + ts).drop_first() =~= ts);
        assert(concat_raws(seq![t] + ts) == raw_of(t) + concat_raws(ts));
        assert(s.subrange(i, j) + s.subrange(j, s.len() as int) =~= s.subrange(
            i,
            s.len() as int,
        ));
    }
}

fn is_ws_exec(c: char) -> (r: bool)
    ensures
        r == is_ws(c),
{
    c == ' ' || c == '\t' || c == '\n' || c == '\r'
}

fn is_name_char_exec(c: char) -> (r: bool)
    ensures
        r == is_name_char(c),
{
    !is_ws_exec(c) && c != '>' && c != '/' && c != '<' && c != '=' && c != '"' && c != '\''
}

fn scan_name_end_exec(s: &[char], i: usize) -> (r: usize)
    requires
        i <= s@.len(),
    ensures
        r == scan_name_end(s@, i as int),
        i <= r <= s@.len(),
{
    let n = s.len();
    let mut j = i;
    while j < n && is_name_char_exec(s[j])
        invariant
            i <= j <= n,
            n == s@.len(),
            scan_name_end(s@, i as int) == scan_name_end(s@, j as int),
        decreases n - j,
    {
        j += 1;
    }
    j
}

fn scan_ws_end_exec(s: &[char], i: usize) -> (r: usize)
    requires
        i <= s@.len(),
    ensures
        r == scan_ws_end(s@, i as int),
        i <= r <= s@.len(),
{
    let n = s.len();
    let mut j = i;
    while j < n && is_ws_exec(s[j])
        invariant
            i <= j <= n,
            n == s@.len(),
            scan_ws_end(s@, i as int) == scan_ws_end(s@, j as int),
        decreases n - j,
    {
        j += 1;
    }
    j
}

pub(crate) fn scan_to_char_exec(s: &[char], i: usize, c: char) -> (r: usize)
    requires
        i <= s@.len(),
    ensures
        r == scan_to_char(s@, i as int, c),
        i <= r <= s@.len(),
{
    let n = s.len();
    let mut j = i;
    while j < n && s[j] != c
        invariant
            i <= j <= n,
            n == s@.len(),
            scan_to_char(s@, i as int, c) == scan_to_char(s@, j as int, c),
        decreases n - j,
    {
        j += 1;
    }
    j
}

fn copy_range(s: &[char], a: usize, b: usize) -> (r: Vec<char>)
    requires
        a <= b <= s@.len(),
    ensures
        r@ == s@.subrange(a as int, b as int),
{
    let mut out: Vec<char> = Vec::new();
    crate::text::push_range(&mut out, s, a, b);
    out
}

fn lex_attrs_exec(s: &[char], i: usize) -> (r: Result<(Vec<Attr>, TagKind, usize), ()>)
    requires
        i <= s@.len(),
    ensures
        match r {
            Ok((attrs, kind, end)) => lex_attrs_at(s@, i as int) == Ok::<_, ()>(
                (attrs.deep_view(), kind, end as int),
            ),
            Err(()) => lex_attrs_at(s@, i as int) is Err,
        },
{
    let n = s.len();
    let mut acc: Vec<Attr> = Vec::new();
    let mut cur = i;
    loop
        invariant
            i <= cur <= n,
            n == s@.len(),
            lex_attrs_at(s@, i as int) == (match lex_attrs_at(s@, cur as int) {
                Ok((a, k, e)) => Ok::<_, ()>((acc.deep_view() + a, k, e)),
                Err(()) => Err::<(Seq<AttrModel>, TagKind, int), ()>(()),
            }),
        decreases n - cur,
    {
        let j = scan_ws_end_exec(s, cur);
        if j == n {
            return Err(());
        }
        if s[j] == '>' {
            proof {
                assert(acc.deep_view() + Seq::<AttrModel>::empty() =~= acc.deep_view());
            }
            return Ok((acc, TagKind::Start, j + 1));
        }
        if s[j] == '/' {
            if j + 1 < n && s[j + 1] == '>' {
                proof {
                    assert(acc.deep_view() + Seq::<AttrModel>::empty() =~= acc.deep_view());
                }
                return Ok((acc, TagKind::Empty, j + 2));
            } else {
                return Err(());
            }
        }
        let k = scan_name_end_exec(s, j);
        if k == j {
            return Err(());
        }
        let m = scan_ws_end_exec(s, k);
        if m == n || s[m] != '=' {
            return Err(());
        }
        let p = scan_ws_end_exec(s, m + 1);
        if p == n || !(s[p] == '"' || s[p] == '\'') {
            return Err(());
        }
        let q = scan_to_char_exec(s, p + 1, s[p]);
        if q == n {
            return Err(());
        }
        let key = copy_range(s, j, k);
        let value = copy_range(s, p + 1, q);
        let ghost old_acc = acc.deep_view();
        let ghost a_model = AttrModel { key: s@.subrange(j as int, k as int), value: s@.subrange(p + 1, q as int) };
        acc.push(Attr { key, value });
        proof {
            assert(acc.deep_view() =~= old_acc.push(a_model));
            match lex_attrs_at(s@, q + 1) {
                Ok((rest, kind, end)) => {
                    assert(lex_attrs_at(s@, cur as int) == Ok::<_, ()>(
                        (seq![a_model] + rest, kind, end),
                    ));
                    assert(old_acc + (seq![a_model] + rest) =~= old_acc.push(a_model) + rest);
                },
                Err(()) => {
                    assert(lex_attrs_at(s@, cur as int) is Err);
                },
            }
        }
        cur = q + 1;
    }
}

fn chars_eq(a: &[char], b: &[char]) -> (r: bool)
    ensures
        r == (a@ == b@),
{
    let n = a.len();
    if n != b.len() {
        return false;
    }
    let mut j: usize = 0;
    while j < n
        invariant
            0 <= j <= n,
            n == a@.len(),
            n == b@.len(),
            forall|k: int| 0 <= k < j ==> a@[k] == b@[k],
        decreases n - j,
    {
        if a[j] != b[j] {
            return false;
        }
        j += 1;
    }
    proof {
        assert(a@ =~= b@);
    }
    true
}

fn has_dup_key_exec(attrs: &Vec<Attr>) -> (r: bool)
    ensures
        r == has_dup_key(attrs.deep_view()),
{
    let ghost dv = attrs.deep_view();
    let n = attrs.len();
    let mut i: usize = 0;
    while i < n
        invariant
            0 <= i <= n,
            n == attrs@.len(),
            dv == attrs.deep_view(),
            forall|p: int, q: int|
                0 <= p < q < n && p < i ==> (#[trigger] dv[p]).key != (#[trigger] dv[q]).key,
        decreases n - i,
    {
        let mut j: usize = i + 1;
        while j < n
            invariant
                0 <= i < j <= n,
                n == attrs@.len(),
                dv == attrs.deep_view(),
                forall|q: int| i < q < j ==> dv[i as int].key != (#[trigger] dv[q]).key,
            decreases n - j,
        {
            if chars_eq(attrs[i].key.as_slice(), attrs[j].key.as_slice()) {
                proof {
                    assert(dv[i as int].key == dv[j as int].key);
                }
                return true;
            }
            j += 1;
        }
        i += 1;
    }
    proof {
        if has_dup_key(dv) {
            let (p, q) = choose|p: int, q: int|
                0 <= p < q < dv.len() && (#[trigger] dv[p]).key == (#[trigger] dv[q]).key;
            assert(dv[p].key != dv[q].key);
        }
    }
    false
}

fn lex_token_exec(s: &[char], i: usize) -> (r: Result<(Token, usize), ()>)
    requires
        i < s@.len(),
    ensures
        match r {
            Ok((t, j)) => lex_token_at(s@, i as int) == Ok::<_, ()>((t@, j as int)) && i < j
                <= s@.len(),
            Err(()) => lex_token_at(s@, i as int) is Err,
        },
{
    let n = s.len();
    proof {
        lemma_lex_token_at(s@, i as int);
    }
    if s[i] != '<' {
        let j = scan_to_char_exec(s, i, '<');
        proof {
            lemma_scan_to_char(s@, i as int, '<');
        }
        return Ok((Token::Text { raw: copy_range(s, i, j) }, j));
    }
    if i + 1 < n && s[i + 1] == '/' {
        let k = scan_name_end_exec(s, i + 2);
        if k == i + 2 {
            return Err(());
        }
        let m = scan_ws_end_exec(s, k);
        if m == n || s[m] != '>' {
            return Err(());
        }
        let no_attrs: Vec<Attr> = Vec::new();
        proof {
            assert(no_attrs.deep_view() =~= Seq::<AttrModel>::empty());
        }
        let t = Token::Tag {
            raw: copy_range(s, i, m + 1),
            name: copy_range(s, i + 2, k),
            attrs: no_attrs,
            kind: TagKind::End,
        };
        return Ok((t, m + 1));
    }
    if i + 1 < n && s[i + 1] == '!' {
        let dashes: Vec<char> = vec!['-', '-'];
        proof {
            assert(dashes@ =~= seq!['-', '-']);
        }
        if n - i >= 4 && crate::text::find_sub_exec(s, dashes.as_slice(), i + 2) == Some(i + 2) {
            proof {
                crate::text::lemma_find_sub_props(s@, seq!['-', '-'], i + 2);
                assert(crate::text::sub_at(s@, seq!['-', '-'], i + 2));
            }
            let close: Vec<char> = vec!['-', '-', '>'];
            proof {
                assert(close@ =~= seq!['-', '-', '>']);
            }
            match crate::text::find_sub_exec(s, close.as_slice(), i + 4) {
                Some(j) => {
                    proof {
                        crate::text::lemma_find_sub_props(s@, seq!['-', '-', '>'], i + 4);
                    }
                    return Ok((Token::Other { raw: copy_range(s, i, j + 3) }, j + 3));
                },
                None => {
                    return Err(());
                },
            }
        }
        proof {
            if crate::text::sub_at(s@, seq!['-', '-'], i + 2) {
                lemma_sub_at_find(s@, seq!['-', '-'], i + 2);
                assert(false);
            }
        }
        let cdata_open: Vec<char> = vec!['[', 'C', 'D', 'A', 'T', 'A', '['];
        proof {
            assert(cdata_open@ =~= seq!['[', 'C', 'D', 'A', 'T', 'A', '[']);
        }
        if n - i >= 9 && crate::text::find_sub_exec(s, cdata_open.as_slice(), i + 2) == Some(i + 2)
        {
            proof {
                crate::text::lemma_find_sub_props(s@, cdata_open@, i + 2);
                assert(crate::text::sub_at(s@, seq!['[', 'C', 'D', 'A', 'T', 'A', '['], i + 2));
            }
            let cdata_close: Vec<char> = vec![']', ']', '>'];
            proof {
                assert(cdata_close@ =~= seq![']', ']', '>']);
            }
            match crate::text::find_sub_exec(s, cdata_close.as_slice(), i + 9) {
                Some(j) => {
                    proof {
                        crate::text::lemma_find_sub_props(s@, seq![']', ']', '>'], i + 9);
                    }
                    return Ok((Token::Other { raw: copy_range(s, i, j + 3) }, j + 3));
                },
                None => {
                    return Err(());
                },
            }
        }
        proof {
            if crate::text::sub_at(s@, seq!['[', 'C', 'D', 'A', 'T', 'A', '['], i + 2) {
                lemma_sub_at_find(s@, seq!['[', 'C', 'D', 'A', 'T', 'A', '['], i + 2);
                assert(false);
            }
        }
        let j = scan_to_char_exec(s, i + 2, '>');
        if j == n {
            return Err(());
        }
        return Ok((Token::Other { raw: copy_range(s, i, j + 1) }, j + 1));
    }
    if i + 1 < n && s[i + 1] == '?' {
        let close: Vec<char> = vec!['?', '>'];
        proof {
            assert(close@ =~= seq!['?', '>']);
        }
        match crate::text::find_sub_exec(s, close.as_slice(), i + 2) {
            Some(j) => {
                proof {
                    crate::text::lemma_find_sub_props(s@, seq!['?', '>'], i + 2);
                }
                return Ok((Token::Other { raw: copy_range(s, i, j + 2) }, j + 2));
            },
            None => {
                return Err(());
            },
        }
    }
    let k = scan_name_end_exec(s, i + 1);
    if k == i + 1 {
        return Err(());
    }
    match lex_attrs_exec(s, k) {
        Ok((attrs, kind, end)) => {
            proof {
                lemma_lex_attrs_at(s@, k as int);
            }
            if has_dup_key_exec(&attrs) {
                return Err(());
            }
            Ok(
                (
                    Token::Tag {
                        raw: copy_range(s, i, end),
                        name: copy_range(s, i + 1, k),
                        attrs,
                        kind,
                    },
                    end,
                ),
            )
        },
        Err(()) => Err(()),
    }
}

/// A prefix match at `from` is what `find_sub` starting at `from` returns.
proof fn lemma_sub_at_find(s: Seq<char>, t: Seq<char>, from: int)
    requires
        0 <= from,
        t.len() >= 1,
        crate::text::sub_at(s, t, from),
    ensures
        crate::text::find_sub(s, t, from) == Some(from),
{
}

/// Tokenizes the whole document, exactly as the grammar `spec_lex` says.
pub fn lex(s: &[char]) -> (r: Result<Vec<Token>, ()>)
    ensures
        match r {
            Ok(ts) => spec_lex(s@) == Ok::<_, ()>(ts.deep_view()),
            Err(()) => spec_lex(s@) is Err,
        },
{
    let n = s.len();
    let mut out: Vec<Token> = Vec::new();
    let mut i: usize = 0;
    while i < n
        invariant
            0 <= i <= n,
            n == s@.len(),
            lex_from(s@, 0) == (match lex_from(s@, i as int) {
                Ok(ts) => Ok::<_, ()>(out.deep_view() + ts),
                Err(()) => Err::<Seq<TokenModel>, ()>(()),
            }),
        decreases n - i,
    {
        match lex_token_exec(s, i) {
            Ok((t, j)) => {
                let ghost old_out = out.deep_view();
                let ghost tm = t@;
                out.push(t);
                proof {
                    assert(out.deep_view() =~= old_out.push(tm));
                    match lex_from(s@, j as int) {
                        Ok(rest) => {
                            assert(lex_from(s@, i as int) == Ok::<_, ()>(seq![tm] + rest));
                            assert(old_out + (seq![tm] + rest) =~= old_out.push(tm) + rest);
                        },
                        Err(()) => {},
                    }
                }
                i = j;
            },
            Err(()) => {
                return Err(());
            },
        }
    }
    proof {
        assert(lex_from(s@, i as int) == Ok::<Seq<TokenModel>, ()>(Seq::empty()));
        assert(out.deep_view() + Seq::<TokenModel>::empty() =~= out.deep_view());
    }
    Ok(out)
}

} // verus!
