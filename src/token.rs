//! A plain model of the tokens handed to the expansion and produced by it.

use vstd::prelude::*;

verus! {

/// The bracket kind of a delimited group.
#[derive(Clone, Copy, Debug, PartialEq, Eq)]
pub enum Delimiter {
    /// `( ... )`
    Parenthesis,
    /// `{ ... }`
    Brace,
    /// `[ ... ]`
    Bracket,
    /// An invisible group, as a compiler may insert around a substituted fragment.
    Invisible,
}

/// One token tree of an invocation.
///
/// A group is kept with its delimiter and its contents as source text: no
/// item form admits a group, but whether an item is an expression at all
/// depends on what its groups hold (`f(x)` is one, `f(a b)` is not).
#[derive(Clone, Debug, PartialEq, Eq)]
pub enum Token {
    /// An identifier or a keyword, such as `self` or `field`.
    Ident(String),
    /// A punctuation character; `joint` is set when the next token is a
    /// punctuation character that belongs to the same operator (the first
    /// `:` of `::`, the first `=` of `==`).
    Punct(char, bool),
    /// A literal, as written: `1`, `0.1`, `"text"`.
    Literal(String),
    /// A delimited group and the source text of its contents.
    Group(Delimiter, String),
}

/// What a [`Token`] stands for, with its text as a sequence of characters.
pub enum TokenView {
    Ident(Seq<char>),
    Punct(char, bool),
    Literal(Seq<char>),
    Group(Delimiter, Seq<char>),
}

impl View for Token {
    type V = TokenView;

    open spec fn view(&self) -> TokenView {
        match self {
            Token::Ident(s) => TokenView::Ident(s@),
            Token::Punct(c, j) => TokenView::Punct(*c, *j),
            Token::Literal(s) => TokenView::Literal(s@),
            Token::Group(d, body) => TokenView::Group(*d, body@),
        }
    }
}

/// The views of a sequence of tokens, position by position.
pub open spec fn views(s: Seq<Token>) -> Seq<TokenView> {
    s.map_values(|t: Token| t@)
}

/// An identifier token.
pub open spec fn is_ident(t: TokenView) -> bool {
    t is Ident
}

/// The text of an identifier token.
pub open spec fn ident_text(t: TokenView) -> Seq<char> {
    match t {
        TokenView::Ident(s) => s,
        _ => Seq::empty(),
    }
}

/// An ASCII identifier: a letter or `_`, then letters, digits and `_`.
pub open spec fn is_ascii_ident(s: Seq<char>) -> bool {
    &&& s.len() > 0
    &&& ('a' <= s[0] <= 'z' || 'A' <= s[0] <= 'Z' || s[0] == '_')
    &&& forall|i: int|
        0 <= i < s.len() ==> ('a' <= #[trigger] s[i] <= 'z' || 'A' <= s[i] <= 'Z' || '0' <= s[i]
            <= '9' || s[i] == '_')
}

/// A text that may be a keyword: up to eight lowercase letters, or `Self`
/// or `_`. Every keyword of the language is of this form.
pub open spec fn keyword_like(s: Seq<char>) -> bool {
    ||| (s.len() <= 8 && forall|i: int| 0 <= i < s.len() ==> 'a' <= #[trigger] s[i] <= 'z')
    ||| s == "Self"@
    ||| s == "_"@
}

/// Some of the words that syn's `Ident` parser refuses as identifiers.
pub open spec fn refused_ident(s: Seq<char>) -> bool {
    ||| s == "_"@ || s == "self"@ || s == "Self"@ || s == "super"@ || s == "crate"@
    ||| s == "true"@ || s == "false"@ || s == "await"@ || s == "async"@ || s == "let"@
    ||| s == "mut"@ || s == "fn"@ || s == "return"@ || s == "break"@ || s == "continue"@
    ||| s == "match"@ || s == "if"@ || s == "else"@ || s == "loop"@ || s == "while"@
    ||| s == "for"@ || s == "in"@ || s == "move"@ || s == "ref"@ || s == "static"@
    ||| s == "struct"@ || s == "type"@ || s == "use"@ || s == "where"@ || s == "yield"@
}

/// Relies on `syn::parse_str::<syn::Ident>`, which lexes the text and then
/// refuses `_` and the keywords it lists. An ASCII identifier that cannot be
/// a keyword is accepted, and the listed words are refused, whichever lexer
/// runs. What it answers on other text may depend on the lexer in use, so
/// nothing more is stated.
#[verifier::external_body]
pub fn is_plain_ident(s: &str) -> (r: bool)
    ensures
        is_ascii_ident(s@) && !keyword_like(s@) ==> r,
        refused_ident(s@) ==> !r,
{
    syn::parse_str::<syn::Ident>(s).is_ok()
}

/// Identifiers that syn reads as an expression of their own (a literal, a
/// jump, the placeholder `_`), not as a path segment.
pub open spec fn is_reserved_segment(s: Seq<char>) -> bool {
    ||| s == "return"@ || s == "break"@ || s == "continue"@ || s == "yield"@
    ||| s == "true"@ || s == "false"@ || s == "_"@
}

/// A segment of a path: an identifier other than the reserved ones.
pub open spec fn is_segment(t: TokenView) -> bool {
    is_ident(t) && !is_reserved_segment(ident_text(t))
}

/// A member selected by name: an identifier other than `await`.
pub open spec fn is_named_member(t: TokenView) -> bool {
    is_ident(t) && ident_text(t) != "await"@
}

/// The `await` after a `.`.
pub open spec fn is_await(t: TokenView) -> bool {
    is_ident(t) && ident_text(t) == "await"@
}

/// The punctuation character `c`, joined or not.
pub open spec fn is_punct(t: TokenView, c: char) -> bool {
    t matches TokenView::Punct(x, _) && x == c
}

/// A group that may follow an operand: call arguments `( )` or an index
/// `[ ]`; either may also begin an operand (a parenthesised expression, an
/// array).
pub open spec fn is_postfix_group(t: TokenView) -> bool {
    t matches TokenView::Group(d, _) && (d == Delimiter::Parenthesis || d == Delimiter::Bracket)
}

/// The argument list `( )` of a call.
pub open spec fn is_paren(t: TokenView) -> bool {
    t matches TokenView::Group(d, _) && d == Delimiter::Parenthesis
}

/// The separator between items.
pub open spec fn is_comma(t: TokenView) -> bool {
    t matches TokenView::Punct(c, _) && c == ','
}

/// A `=` that stands alone, that is, an assignment and not part of `==`.
pub open spec fn is_assign(t: TokenView) -> bool {
    t == TokenView::Punct('=', false)
}

/// A `=`, alone or joined to the next punctuation character.
pub open spec fn is_eq_sign(t: TokenView) -> bool {
    t matches TokenView::Punct(c, _) && c == '='
}

/// A character that, after a joined `=`, makes it part of `==` or `=>`.
pub open spec fn is_operator_tail(t: TokenView) -> bool {
    t matches TokenView::Punct(c, _) && (c == '=' || c == '>')
}

/// The `.` that selects a member.
pub open spec fn is_dot(t: TokenView) -> bool {
    t matches TokenView::Punct(c, _) && c == '.'
}

/// The first `:` of a `::` path separator.
pub open spec fn is_colon_joint(t: TokenView) -> bool {
    t == TokenView::Punct(':', true)
}

/// An ASCII decimal digit.
pub open spec fn is_digit(c: char) -> bool {
    '0' <= c <= '9'
}

/// The text of a tuple-index member: digits such as `1`, or two runs of
/// digits around one `.`, such as `0.1`, which is how a lexer reads the two
/// indices of `pair.0.1`.
pub open spec fn is_index_text(s: Seq<char>) -> bool {
    &&& s.len() > 0
    &&& is_digit(s[0])
    &&& is_digit(s.last())
    &&& forall|i: int| 0 <= i < s.len() ==> is_digit(#[trigger] s[i]) || s[i] == '.'
    &&& forall|i: int, j: int|
        0 <= i < s.len() && 0 <= j < s.len() && #[trigger] s[i] == '.' && #[trigger] s[j] == '.'
            ==> i == j
}

/// A tuple-index member such as the `1` of `pair.1`.
pub open spec fn is_tuple_index(t: TokenView) -> bool {
    t matches TokenView::Literal(s) && is_index_text(s)
}

/// Where a left-to-right reading of a postfix expression stands: a path
/// with optional turbofish (`a::<T>::B`), or an operand followed by member
/// selections, calls, indexing, `?` and `.await` (`self.get().x`, `v[0].b`).
#[derive(Clone, Copy, Debug, PartialEq, Eq, Structural)]
pub enum ChainState {
    /// Nothing read yet.
    Start,
    /// A leading `:` was read, the first half of `::`.
    LeadColon,
    /// The first `:` of a `::` was read; `in_path` while no postfix was read.
    Colons { in_path: bool },
    /// A `::` was read: a segment or a `<` follows.
    AfterColons { in_path: bool },
    /// Inside the generic arguments of a turbofish, `depth` angles deep;
    /// `after_minus` when the last token is a joined `-`, so that a `>`
    /// closes an arrow and not an angle.
    Generic { in_path: bool, depth: usize, after_minus: bool },
    /// A path that ends in a segment.
    Segment,
    /// A turbofish was closed.
    Turbofish { in_path: bool },
    /// A `.` was read: a member follows.
    Dot,
    /// A field access: the last member is a name or (`named` false) a tuple index.
    Member { named: bool },
    /// A call, an index, a `?`, an `.await` or a parenthesised operand.
    Postfix,
    /// Not a postfix expression.
    Dead,
}

/// The state after a complete operand reads `t`; `colons` when a `::` may
/// follow, and `in_path` when it continues a path.
pub open spec fn after_operand(t: TokenView, colons: bool, in_path: bool) -> ChainState {
    if is_dot(t) {
        ChainState::Dot
    } else if is_postfix_group(t) || is_punct(t, '?') {
        ChainState::Postfix
    } else if colons && is_colon_joint(t) {
        ChainState::Colons { in_path }
    } else {
        ChainState::Dead
    }
}

/// One step of the reading.
pub open spec fn step(st: ChainState, t: TokenView) -> ChainState {
    match st {
        ChainState::Start => if is_segment(t) {
            ChainState::Segment
        } else if is_colon_joint(t) {
            ChainState::LeadColon
        } else if is_postfix_group(t) {
            ChainState::Postfix
        } else {
            ChainState::Dead
        },
        ChainState::LeadColon => if is_punct(t, ':') {
            ChainState::AfterColons { in_path: true }
        } else {
            ChainState::Dead
        },
        ChainState::Colons { in_path } => if is_punct(t, ':') {
            ChainState::AfterColons { in_path }
        } else {
            ChainState::Dead
        },
        ChainState::AfterColons { in_path } => if in_path && is_segment(t) {
            ChainState::Segment
        } else if is_punct(t, '<') {
            ChainState::Generic { in_path, depth: 1, after_minus: false }
        } else {
            ChainState::Dead
        },
        ChainState::Generic { in_path, depth, after_minus } => if is_punct(t, ';') || is_punct(
            t,
            '=',
        ) {
            ChainState::Dead
        } else if is_punct(t, '<') {
            if depth < usize::MAX {
                ChainState::Generic { in_path, depth: (depth + 1) as usize, after_minus: false }
            } else {
                ChainState::Dead
            }
        } else if is_punct(t, '>') && !after_minus {
            if depth <= 1 {
                ChainState::Turbofish { in_path }
            } else {
                ChainState::Generic { in_path, depth: (depth - 1) as usize, after_minus: false }
            }
        } else {
            ChainState::Generic { in_path, depth, after_minus: t == TokenView::Punct('-', true) }
        },
        ChainState::Segment => after_operand(t, true, true),
        ChainState::Turbofish { in_path } => if in_path {
            after_operand(t, true, true)
        } else if is_paren(t) {
            ChainState::Postfix
        } else {
            ChainState::Dead
        },
        ChainState::Dot => if is_named_member(t) {
            ChainState::Member { named: true }
        } else if is_tuple_index(t) {
            ChainState::Member { named: false }
        } else if is_await(t) {
            ChainState::Postfix
        } else {
            ChainState::Dead
        },
        ChainState::Member { named } => after_operand(t, named, false),
        ChainState::Postfix => after_operand(t, false, false),
        ChainState::Dead => ChainState::Dead,
    }
}

/// The state after reading all of `s`.
pub open spec fn run(s: Seq<TokenView>) -> ChainState
    decreases s.len(),
{
    if s.len() == 0 {
        ChainState::Start
    } else {
        step(run(s.drop_last()), s.last())
    }
}

/// A path such as `local`, `a::b`, `::m::C` or `a::<T>::B`.
pub open spec fn is_path(s: Seq<TokenView>) -> bool {
    run(s) == ChainState::Segment || run(s) == (ChainState::Turbofish { in_path: true })
}

/// A field access: an operand followed by postfix operations, the last of
/// them a `.member` selection, such as `self.field`, `a[0].b` or `pair.1`.
pub open spec fn is_field_access(s: Seq<TokenView>) -> bool {
    run(s) is Member
}

/// Returns a token equal to `t`.
pub fn copy_token(t: &Token) -> (r: Token)
    ensures
        r@ == t@,
{
    match t {
        Token::Ident(s) => Token::Ident(s.clone()),
        Token::Punct(c, j) => Token::Punct(*c, *j),
        Token::Literal(s) => Token::Literal(s.clone()),
        Token::Group(d, body) => Token::Group(*d, body.clone()),
    }
}

/// Whether `s` is the text of a tuple-index member.
pub fn index_text(s: &String) -> (r: bool)
    ensures
        r == is_index_text(s@),
{
    let t = s.as_str();
    let n = t.unicode_len();
    if n == 0 {
        return false;
    }
    let first = t.get_char(0);
    let last = t.get_char(n - 1);
    if !('0' <= first && first <= '9') || !('0' <= last && last <= '9') {
        return false;
    }
    let mut dot: Option<usize> = Option::None;
    let mut i: usize = 0;
    while i < n
        invariant
            n == s@.len(),
            t@ == s@,
            i <= n,
            forall|k: int| 0 <= k < i ==> is_digit(#[trigger] s@[k]) || s@[k] == '.',
            forall|k: int| 0 <= k < i && #[trigger] s@[k] == '.' ==> dot == Some(k as usize),
            dot matches Some(d) ==> d < i && s@[d as int] == '.',
        decreases n - i,
    {
        let c = t.get_char(i);
        if c == '.' {
            if let Some(d) = dot {
                assert(s@[d as int] == '.' && s@[i as int] == '.' && d != i);
                return false;
            }
            dot = Some(i);
        } else if !('0' <= c && c <= '9') {
            assert(!(is_digit(s@[i as int]) || s@[i as int] == '.'));
            return false;
        }
        i = i + 1;
    }
    true
}

/// Whether `t` is an identifier.
pub fn token_is_ident(t: &Token) -> (r: bool)
    ensures
        r == is_ident(t@),
{
    match t {
        Token::Ident(_) => true,
        _ => false,
    }
}

/// Whether `t` is the comma that separates items.
pub fn token_is_comma(t: &Token) -> (r: bool)
    ensures
        r == is_comma(t@),
{
    match t {
        Token::Punct(c, _) => *c == ',',
        _ => false,
    }
}

/// Whether `t` is an assignment `=`.
pub fn token_is_assign(t: &Token) -> (r: bool)
    ensures
        r == is_assign(t@),
{
    match t {
        Token::Punct(c, j) => *c == '=' && !*j,
        _ => false,
    }
}

/// Whether `t` is a member-selecting `.`.
pub fn token_is_dot(t: &Token) -> (r: bool)
    ensures
        r == is_dot(t@),
{
    match t {
        Token::Punct(c, _) => *c == '.',
        _ => false,
    }
}

/// Whether `t` is the first `:` of a `::`.
pub fn token_is_colon_joint(t: &Token) -> (r: bool)
    ensures
        r == is_colon_joint(t@),
{
    match t {
        Token::Punct(c, j) => *c == ':' && *j,
        _ => false,
    }
}

/// Whether `t` is a tuple-index member.
pub fn token_is_tuple_index(t: &Token) -> (r: bool)
    ensures
        r == is_tuple_index(t@),
{
    match t {
        Token::Literal(s) => index_text(s),
        _ => false,
    }
}

/// Whether `s` is the text `w`.
fn text_is(s: &String, w: &str) -> (r: bool)
    ensures
        r == (s@ == w@),
{
    s.eq(&w.to_owned())
}

/// Whether `t` is a segment of a path.
pub fn token_is_segment(t: &Token) -> (r: bool)
    ensures
        r == is_segment(t@),
{
    match t {
        Token::Ident(s) => !(text_is(s, "return") || text_is(s, "break") || text_is(s, "continue")
            || text_is(s, "yield") || text_is(s, "true") || text_is(s, "false") || text_is(s, "_")),
        _ => false,
    }
}

/// Whether `t` is `await`.
pub fn token_is_await(t: &Token) -> (r: bool)
    ensures
        r == is_await(t@),
{
    match t {
        Token::Ident(s) => text_is(s, "await"),
        _ => false,
    }
}

/// Whether `t` is the punctuation character `c`.
pub fn token_is_punct(t: &Token, c: char) -> (r: bool)
    ensures
        r == is_punct(t@, c),
{
    match t {
        Token::Punct(x, _) => *x == c,
        _ => false,
    }
}

/// Whether `t` is a parenthesised or bracketed group.
pub fn token_is_postfix_group(t: &Token) -> (r: bool)
    ensures
        r == is_postfix_group(t@),
{
    match t {
        Token::Group(Delimiter::Parenthesis, _) => true,
        Token::Group(Delimiter::Bracket, _) => true,
        _ => false,
    }
}

/// Whether `t` is a parenthesised group.
pub fn token_is_paren(t: &Token) -> (r: bool)
    ensures
        r == is_paren(t@),
{
    match t {
        Token::Group(Delimiter::Parenthesis, _) => true,
        _ => false,
    }
}

fn exec_after_operand(t: &Token, colons: bool, in_path: bool) -> (r: ChainState)
    ensures
        r == after_operand(t@, colons, in_path),
{
    if token_is_dot(t) {
        ChainState::Dot
    } else if token_is_postfix_group(t) || token_is_punct(t, '?') {
        ChainState::Postfix
    } else if colons && token_is_colon_joint(t) {
        ChainState::Colons { in_path }
    } else {
        ChainState::Dead
    }
}

/// One step of the reading, on a token.
pub fn exec_step(st: ChainState, t: &Token) -> (r: ChainState)
    ensures
        r == step(st, t@),
{
    match st {
        ChainState::Start => if token_is_segment(t) {
            ChainState::Segment
        } else if token_is_colon_joint(t) {
            ChainState::LeadColon
        } else if token_is_postfix_group(t) {
            ChainState::Postfix
        } else {
            ChainState::Dead
        },
        ChainState::LeadColon => if token_is_punct(t, ':') {
            ChainState::AfterColons { in_path: true }
        } else {
            ChainState::Dead
        },
        ChainState::Colons { in_path } => if token_is_punct(t, ':') {
            ChainState::AfterColons { in_path }
        } else {
            ChainState::Dead
        },
        ChainState::AfterColons { in_path } => if in_path && token_is_segment(t) {
            ChainState::Segment
        } else if token_is_punct(t, '<') {
            ChainState::Generic { in_path, depth: 1, after_minus: false }
        } else {
            ChainState::Dead
        },
        ChainState::Generic { in_path, depth, after_minus } => if token_is_punct(t, ';')
            || token_is_punct(t, '=') {
            ChainState::Dead
        } else if token_is_punct(t, '<') {
            if depth < usize::MAX {
                ChainState::Generic { in_path, depth: depth + 1, after_minus: false }
            } else {
                ChainState::Dead
            }
        } else if token_is_punct(t, '>') && !after_minus {
            if depth <= 1 {
                ChainState::Turbofish { in_path }
            } else {
                ChainState::Generic { in_path, depth: depth - 1, after_minus: false }
            }
        } else {
            let minus = match t {
                Token::Punct(c, j) => *c == '-' && *j,
                _ => false,
            };
            ChainState::Generic { in_path, depth, after_minus: minus }
        },
        ChainState::Segment => exec_after_operand(t, true, true),
        ChainState::Turbofish { in_path } => if in_path {
            exec_after_operand(t, true, true)
        } else if token_is_paren(t) {
            ChainState::Postfix
        } else {
            ChainState::Dead
        },
        ChainState::Dot => if token_is_ident(t) && !token_is_await(t) {
            ChainState::Member { named: true }
        } else if token_is_tuple_index(t) {
            ChainState::Member { named: false }
        } else if token_is_await(t) {
            ChainState::Postfix
        } else {
            ChainState::Dead
        },
        ChainState::Member { named } => exec_after_operand(t, named, false),
        ChainState::Postfix => exec_after_operand(t, false, false),
        ChainState::Dead => ChainState::Dead,
    }
}

/// The state after reading all of `s`.
pub fn chain_state(s: &Vec<Token>) -> (r: ChainState)
    ensures
        r == run(views(s@)),
{
    let mut st = ChainState::Start;
    let mut i: usize = 0;
    while i < s.len()
        invariant
            i <= s.len(),
            st == run(views(s@).take(i as int)),
        decreases s.len() - i,
    {
        assert(views(s@).take(i + 1).drop_last() =~= views(s@).take(i as int));
        st = exec_step(st, &s[i]);
        i = i + 1;
    }
    assert(views(s@).take(s.len() as int) =~= views(s@));
    st
}

/// Whether `t` is a `=`.
pub fn token_is_eq_sign(t: &Token) -> (r: bool)
    ensures
        r == is_eq_sign(t@),
{
    match t {
        Token::Punct(c, _) => *c == '=',
        _ => false,
    }
}

/// Whether `t` is a `=` or a `>`.
pub fn token_is_operator_tail(t: &Token) -> (r: bool)
    ensures
        r == is_operator_tail(t@),
{
    match t {
        Token::Punct(c, _) => *c == '=' || *c == '>',
        _ => false,
    }
}

/// The opening bracket of a delimiter; an invisible group has none.
pub open spec fn open_text(d: Delimiter) -> Seq<char> {
    match d {
        Delimiter::Parenthesis => seq!['('],
        Delimiter::Brace => seq!['{'],
        Delimiter::Bracket => seq!['['],
        Delimiter::Invisible => Seq::empty(),
    }
}

/// The closing bracket of a delimiter; an invisible group has none.
pub open spec fn close_text(d: Delimiter) -> Seq<char> {
    match d {
        Delimiter::Parenthesis => seq![')'],
        Delimiter::Brace => seq!['}'],
        Delimiter::Bracket => seq![']'],
        Delimiter::Invisible => Seq::empty(),
    }
}

/// The source text of one token: a space follows each token but a joined
/// punctuation character, so that reading the text back gives the tokens.
pub open spec fn token_text(t: TokenView) -> Seq<char> {
    match t {
        TokenView::Ident(s) => s.push(' '),
        TokenView::Punct(c, joint) => if joint {
            seq![c]
        } else {
            seq![c, ' ']
        },
        TokenView::Literal(s) => s.push(' '),
        TokenView::Group(d, body) => open_text(d) + body + close_text(d).push(' '),
    }
}

/// The source text of a sequence of tokens.
pub open spec fn render(s: Seq<TokenView>) -> Seq<char>
    decreases s.len(),
{
    if s.len() == 0 {
        Seq::empty()
    } else {
        render(s.drop_last()) + token_text(s.last())
    }
}

/// Appends the characters of `s` to `out`.
fn push_chars(out: &mut Vec<char>, s: &str)
    ensures
        final(out)@ == old(out)@ + s@,
{
    let n = s.unicode_len();
    let mut i: usize = 0;
    while i < n
        invariant
            n == s@.len(),
            i <= n,
            out@ == old(out)@ + s@.take(i as int),
        decreases n - i,
    {
        out.push(s.get_char(i));
        assert(s@.take(i + 1) =~= s@.take(i as int).push(s@[i as int]));
        i = i + 1;
    }
    assert(s@.take(n as int) =~= s@);
}

/// Appends the opening or the closing bracket of `d` to `out`.
fn push_bracket(out: &mut Vec<char>, d: Delimiter, opening: bool)
    ensures
        final(out)@ == old(out)@ + if opening {
            open_text(d)
        } else {
            close_text(d)
        },
{
    let c = match d {
        Delimiter::Parenthesis => if opening { '(' } else { ')' },
        Delimiter::Brace => if opening { '{' } else { '}' },
        Delimiter::Bracket => if opening { '[' } else { ']' },
        Delimiter::Invisible => {
            assert(old(out)@ + Seq::<char>::empty() =~= old(out)@);
            return;
        },
    };
    out.push(c);
    assert(final(out)@ =~= old(out)@ + seq![c]);
}

/// The source text of the tokens `s`.
pub fn render_tokens(s: &Vec<Token>) -> (r: Vec<char>)
    ensures
        r@ == render(views(s@)),
{
    let mut out: Vec<char> = Vec::new();
    let mut i: usize = 0;
    while i < s.len()
        invariant
            i <= s.len(),
            out@ == render(views(s@).take(i as int)),
        decreases s.len() - i,
    {
        let ghost before = out@;
        assert(views(s@).take(i + 1).drop_last() =~= views(s@).take(i as int));
        match &s[i] {
            Token::Ident(x) => {
                push_chars(&mut out, x.as_str());
                out.push(' ');
            },
            Token::Punct(c, joint) => {
                out.push(*c);
                if !*joint {
                    out.push(' ');
                }
            },
            Token::Literal(x) => {
                push_chars(&mut out, x.as_str());
                out.push(' ');
            },
            Token::Group(d, body) => {
                push_bracket(&mut out, *d, true);
                push_chars(&mut out, body.as_str());
                push_bracket(&mut out, *d, false);
                out.push(' ');
            },
        }
        assert(out@ =~= before + token_text(s@[i as int]@));
        i = i + 1;
    }
    assert(views(s@).take(s.len() as int) =~= views(s@));
    out
}

/// Relies on `syn::parse_str::<syn::Expr>`: it reads one expression from
/// the text, so an empty text is refused. What it answers on other text may
/// depend on the lexer in use, so nothing more is stated.
#[verifier::external_body]
pub fn is_expr_text(s: &Vec<char>) -> (r: bool)
    ensures
        s@.len() == 0 ==> !r,
{
    let text: String = s.iter().collect();
    syn::parse_str::<syn::Expr>(&text).is_ok()
}

} // verus!
