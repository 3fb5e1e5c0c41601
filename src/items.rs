//! The item grammar: how the invocation's tokens split into items, and how
//! each item yields the name and the source expression of one binding.

use vstd::prelude::*;

use crate::token::{
    chain_state, copy_token, ident_text, is_assign, is_colon_joint, is_comma, is_eq_sign,
    is_expr_text, is_field_access, is_ident, is_operator_tail, is_path, is_plain_ident, is_punct,
    render_tokens, token_is_assign, token_is_colon_joint, token_is_comma, token_is_punct, token_is_eq_sign, token_is_ident,
    token_is_operator_tail, views, ChainState, Token, TokenView,
};

verus! {

/// Why an invocation has no expansion. Each error names the 1-based position
/// of the item it concerns.
#[derive(Clone, Copy, Debug, PartialEq, Eq, Structural)]
pub enum CloneError {
    /// The item is not an expression: it is empty (`clone!(a,,b)`), or its
    /// tokens do not read as one (`clone!(a b)`, `clone!(a =)`).
    MalformedItemList { position: usize },
    /// The right-hand side of an assignment is neither a path nor a field access.
    UnsupportedRhs { position: usize },
    /// The item is neither an identifier, a field access nor an assignment,
    /// or the name it gives is a keyword or `_`.
    UnsupportedItem { position: usize },
    /// A field access ends in a tuple index, from which no name follows; an
    /// assignment (`name = pair.1`) must give the name.
    TupleFieldWithoutName { position: usize },
}

/// One binding to emit: `let name = expr.clone();`.
#[derive(Clone, Debug, PartialEq, Eq)]
pub struct CloneItem {
    /// The identifier the binding introduces.
    pub name: String,
    /// The tokens of the expression whose clone initialises the binding.
    pub expr: Vec<Token>,
}

/// What a [`CloneItem`] stands for.
pub struct CloneItemView {
    pub name: Seq<char>,
    pub expr: Seq<TokenView>,
}

impl View for CloneItem {
    type V = CloneItemView;

    open spec fn view(&self) -> CloneItemView {
        CloneItemView { name: self.name@, expr: views(self.expr@) }
    }
}

/// The views of a sequence of items.
pub open spec fn item_views(s: Seq<CloneItem>) -> Seq<CloneItemView> {
    s.map_values(|it: CloneItem| it@)
}

/// The views of a sequence of token vectors.
pub open spec fn group_views(s: Seq<Vec<Token>>) -> Seq<Seq<TokenView>> {
    s.map_values(|v: Vec<Token>| views(v@))
}

/// How many angle brackets of a turbofish (`::<`) are open after `s`. A
/// `<` opens one after `::` or inside one already open, and a `>` closes one
/// unless it ends an arrow `->`. Other angles are comparisons.
pub open spec fn angle_depth(s: Seq<TokenView>) -> nat
    decreases s.len(),
{
    if s.len() == 0 {
        0
    } else {
        let d = angle_depth(s.drop_last());
        let n = s.len();
        let t = s.last();
        if is_punct(t, '<') && (d > 0 || (n >= 3 && is_punct(s[n - 2], ':') && is_colon_joint(
            s[n - 3],
        ))) {
            d + 1
        } else if d > 0 && is_punct(t, '>') && !(n >= 2 && s[n - 2] == TokenView::Punct(
            '-',
            true,
        )) {
            (d - 1) as nat
        } else {
            d
        }
    }
}

/// A comma that ends the tokens `s`, outside any turbofish.
pub open spec fn ends_in_separator(s: Seq<TokenView>) -> bool {
    s.len() > 0 && is_comma(s.last()) && angle_depth(s.drop_last()) == 0
}

/// The runs of `s` between separating commas, in order: `a , b , c` gives
/// `a`, `b`, `c`, and `f::<A, B>` is one run. A separator at the end leaves
/// an empty last run.
pub open spec fn segments(s: Seq<TokenView>) -> Seq<Seq<TokenView>>
    decreases s.len(),
{
    if s.len() == 0 {
        seq![Seq::empty()]
    } else {
        let prev = segments(s.drop_last());
        if ends_in_separator(s) {
            prev.push(Seq::empty())
        } else {
            prev.update(prev.len() - 1, prev.last().push(s.last()))
        }
    }
}

/// The items of an invocation: no item for empty input, and a trailing
/// separator ends the list without starting another item.
pub open spec fn item_list(s: Seq<TokenView>) -> Seq<Seq<TokenView>> {
    if s.len() == 0 {
        Seq::empty()
    } else if ends_in_separator(s) {
        segments(s).drop_last()
    } else {
        segments(s)
    }
}

/// Whether `item` has the shape `IDENT = ...`, where the `=` is not the
/// start of `==` or `=>` (it may be joined to what follows, as in `n =-1`).
pub open spec fn is_assignment(item: Seq<TokenView>) -> bool {
    &&& item.len() >= 2
    &&& is_ident(item[0])
    &&& is_eq_sign(item[1])
    &&& (is_assign(item[1]) || !(item.len() > 2 && is_operator_tail(item[2])))
}

/// The binding that the shape of the item at 1-based `position` asks for,
/// or why it asks for none:
/// - `name = source`, where `source` is a path or a field access, binds `name`;
/// - a lone identifier `x` binds `x`;
/// - a field access ending in a named member `m` binds `m`;
/// and the source expression is the item itself but for an assignment,
/// where it is the right-hand side.
pub open spec fn shape(item: Seq<TokenView>, position: usize) -> Result<
    CloneItemView,
    CloneError,
> {
    if item.len() == 0 {
        Err(CloneError::MalformedItemList { position })
    } else if is_assignment(item) {
        let rhs = item.skip(2);
        if rhs.len() == 0 {
            Err(CloneError::MalformedItemList { position })
        } else if is_path(rhs) || is_field_access(rhs) {
            Ok(CloneItemView { name: ident_text(item[0]), expr: rhs })
        } else {
            Err(CloneError::UnsupportedRhs { position })
        }
    } else if item.len() == 1 && is_ident(item[0]) {
        Ok(CloneItemView { name: ident_text(item[0]), expr: item })
    } else if is_field_access(item) {
        if is_ident(item.last()) {
            Ok(CloneItemView { name: ident_text(item.last()), expr: item })
        } else {
            Err(CloneError::TupleFieldWithoutName { position })
        }
    } else {
        Err(CloneError::UnsupportedItem { position })
    }
}

/// The binding that the item at 1-based `position` asks for, or why it
/// asks for none, given the parser's answers on it: `expression`, whether
/// its text reads as an expression, and `plain_name`, whether the name its
/// [`shape`] gives is a plain identifier. An item that is empty or not an
/// expression makes the list malformed, whatever its shape; otherwise the
/// item gives the binding of its shape, provided its name is plain: an item
/// whose name would be a keyword (`self`) is unsupported.
pub open spec fn classify(
    item: Seq<TokenView>,
    position: usize,
    expression: bool,
    plain_name: bool,
) -> Result<CloneItemView, CloneError> {
    if item.len() == 0 || !expression {
        Err(CloneError::MalformedItemList { position })
    } else {
        match shape(item, position) {
            Ok(it) => if plain_name {
                Ok(it)
            } else {
                Err(CloneError::UnsupportedItem { position })
            },
            Err(e) => Err(e),
        }
    }
}

/// The bindings of the first `n` items of `items`, given the parser's two
/// answers on each, or the error of the first of them that fails.
pub open spec fn classify_prefix(
    items: Seq<Seq<TokenView>>,
    answers: Seq<(bool, bool)>,
    n: nat,
) -> Result<Seq<CloneItemView>, CloneError>
    decreases n,
{
    if n == 0 {
        Ok(Seq::empty())
    } else {
        match classify_prefix(items, answers, (n - 1) as nat) {
            Err(e) => Err(e),
            Ok(done) => match classify(
                items[n - 1],
                n as usize,
                answers[n - 1].0,
                answers[n - 1].1,
            ) {
                Err(e) => Err(e),
                Ok(it) => Ok(done.push(it)),
            },
        }
    }
}

/// The bindings of a whole invocation, given the parser's answers on each
/// item, or the error of its first failing item.
pub open spec fn parse_spec(s: Seq<TokenView>, answers: Seq<(bool, bool)>) -> Result<
    Seq<CloneItemView>,
    CloneError,
> {
    classify_prefix(item_list(s), answers, item_list(s).len())
}

/// A copy of the tokens `lo..hi` of `v`.
fn copy_range(v: &Vec<Token>, lo: usize, hi: usize) -> (r: Vec<Token>)
    requires
        lo <= hi <= v.len(),
    ensures
        views(r@) == views(v@).subrange(lo as int, hi as int),
{
    let mut r: Vec<Token> = Vec::new();
    let mut i: usize = lo;
    while i < hi
        invariant
            lo <= i <= hi <= v.len(),
            views(r@) =~= views(v@).subrange(lo as int, i as int),
        decreases hi - i,
    {
        let ghost old_r = r@;
        r.push(copy_token(&v[i]));
        assert(views(r@) =~= views(old_r).push(v@[i as int]@));
        i = i + 1;
    }
    r
}

/// Splits the invocation's tokens into its items.
pub fn split_items(tokens: &Vec<Token>) -> (r: Vec<Vec<Token>>)
    ensures
        group_views(r@) == item_list(views(tokens@)),
{
    let ghost s = views(tokens@);
    let mut done: Vec<Vec<Token>> = Vec::new();
    let mut cur: Vec<Token> = Vec::new();
    let mut i: usize = 0;
    assert(s.take(0) =~= Seq::<TokenView>::empty());
    assert(group_views(done@) =~= Seq::<Seq<TokenView>>::empty());
    assert(views(cur@) =~= Seq::<TokenView>::empty());
    assert(group_views(done@).push(views(cur@)) =~= seq![Seq::<TokenView>::empty()]);
    let mut depth: usize = 0;
    let mut last_sep = false;
    while i < tokens.len()
        invariant
            s == views(tokens@),
            i <= tokens.len(),
            depth <= i,
            depth == angle_depth(s.take(i as int)),
            last_sep == ends_in_separator(s.take(i as int)),
            segments(s.take(i as int)) == group_views(done@).push(views(cur@)),
            last_sep ==> cur@.len() == 0,
        decreases tokens.len() - i,
    {
        let ghost before = s.take(i as int);
        let ghost next = s.take(i + 1);
        assert(next.drop_last() =~= before);
        assert(next.last() == tokens@[i as int]@);
        let t = &tokens[i];
        if token_is_comma(t) && depth == 0 {
            let ghost old_done = done@;
            let ghost old_cur = cur@;
            done.push(cur);
            cur = Vec::new();
            assert(group_views(done@) =~= group_views(old_done).push(views(old_cur)));
            assert(views(cur@) =~= Seq::<TokenView>::empty());
            last_sep = true;
        } else {
            let ghost old_cur = cur@;
            cur.push(copy_token(t));
            assert(views(cur@) =~= views(old_cur).push(t@));
            assert(group_views(done@).push(views(cur@)) =~= group_views(done@).push(
                views(old_cur),
            ).update(done@.len() as int, views(old_cur).push(t@)));
            last_sep = false;
        }
        let after_colons = i >= 2 && token_is_punct(&tokens[i - 1], ':') && token_is_colon_joint(
            &tokens[i - 2],
        );
        let after_arrow = i >= 1 && match &tokens[i - 1] {
            Token::Punct(c, j) => *c == '-' && *j,
            _ => false,
        };
        if i >= 1 {
            assert(next[i - 1] == s[i - 1]);
        }
        if i >= 2 {
            assert(next[i - 2] == s[i - 2]);
        }
        if token_is_punct(t, '<') && (depth > 0 || after_colons) {
            depth = depth + 1;
        } else if depth > 0 && token_is_punct(t, '>') && !after_arrow {
            depth = depth - 1;
        }
        i = i + 1;
    }
    assert(s.take(tokens.len() as int) =~= s);
    if tokens.len() == 0 || last_sep {
        assert(group_views(done@) =~= group_views(done@).push(views(cur@)).drop_last());
        done
    } else {
        let ghost old_done = done@;
        done.push(cur);
        assert(group_views(done@) =~= group_views(old_done).push(views(cur@)));
        done
    }
}

/// The view of a result that carries one item.
pub open spec fn item_result(r: Result<CloneItem, CloneError>) -> Result<CloneItemView, CloneError> {
    match r {
        Ok(it) => Ok(it@),
        Err(e) => Err(e),
    }
}

/// The view of a result that carries a list of items.
pub open spec fn items_result(r: Result<Vec<CloneItem>, CloneError>) -> Result<
    Seq<CloneItemView>,
    CloneError,
> {
    match r {
        Ok(v) => Ok(item_views(v@)),
        Err(e) => Err(e),
    }
}

/// The text of an identifier token, as a string.
fn ident_string(t: &Token) -> (r: String)
    requires
        is_ident(t@),
    ensures
        r@ == ident_text(t@),
{
    match t {
        Token::Ident(s) => s.clone(),
        _ => String::new(),
    }
}

/// The binding that the shape of `item`, at 1-based `position`, asks for,
/// whatever its name.
pub fn item_shape(item: &Vec<Token>, position: usize) -> (r: Result<CloneItem, CloneError>)
    ensures
        item_result(r) == shape(views(item@), position),
{
    let ghost s = views(item@);
    let n = item.len();
    if n == 0 {
        return Err(CloneError::MalformedItemList { position });
    }
    if n >= 2 && token_is_ident(&item[0]) && token_is_eq_sign(&item[1]) && (token_is_assign(
        &item[1],
    ) || !(n > 2 && token_is_operator_tail(&item[2]))) {
        if n == 2 {
            return Err(CloneError::MalformedItemList { position });
        }
        let rhs = copy_range(item, 2, n);
        assert(views(rhs@).take((n - 2) as int) =~= s.skip(2));
        assert(views(rhs@) =~= s.skip(2));
        let st = chain_state(&rhs);
        if matches!(st, ChainState::Segment) || matches!(st, ChainState::Turbofish { in_path: true })
            || matches!(st, ChainState::Member { .. }) {
            let name = ident_string(&item[0]);
            return Ok(CloneItem { name, expr: rhs });
        } else {
            return Err(CloneError::UnsupportedRhs { position });
        }
    }
    assert(s.take(n as int) =~= s);
    if n == 1 && token_is_ident(&item[0]) {
        let name = ident_string(&item[0]);
        let expr = copy_range(item, 0, n);
        assert(views(expr@) =~= s);
        Ok(CloneItem { name, expr })
    } else if matches!(chain_state(item), ChainState::Member { .. }) {
        if token_is_ident(&item[n - 1]) {
            let name = ident_string(&item[n - 1]);
            let expr = copy_range(item, 0, n);
            assert(views(expr@) =~= s);
            Ok(CloneItem { name, expr })
        } else {
            Err(CloneError::TupleFieldWithoutName { position })
        }
    } else {
        Err(CloneError::UnsupportedItem { position })
    }
}

/// The binding that the item `item`, at 1-based `position`, asks for,
/// given the parser's answers on it.
pub fn decide_item(item: &Vec<Token>, position: usize, expression: bool, plain_name: bool) -> (r:
    Result<CloneItem, CloneError>)
    ensures
        item_result(r) == classify(views(item@), position, expression, plain_name),
{
    if item.len() == 0 || !expression {
        return Err(CloneError::MalformedItemList { position });
    }
    match item_shape(item, position) {
        Ok(it) => if plain_name {
            Ok(it)
        } else {
            Err(CloneError::UnsupportedItem { position })
        },
        Err(e) => Err(e),
    }
}

/// The binding that the item `item`, at 1-based `position`, asks for: the
/// result of [`decide_item`] on syn's answers, whether the item's text reads
/// as an expression and whether the name is a plain identifier.
pub fn parse_item(item: &Vec<Token>, position: usize) -> (r: Result<CloneItem, CloneError>)
    ensures
        exists|expression: bool, plain_name: bool|
            item_result(r) == #[trigger] classify(views(item@), position, expression, plain_name),
        item@.len() == 0 ==> r == Err::<CloneItem, CloneError>(
            CloneError::MalformedItemList { position },
        ),
{
    let text = render_tokens(item);
    let expression = is_expr_text(&text);
    let plain_name = match item_shape(item, position) {
        Ok(it) => is_plain_ident(it.name.as_str()),
        Err(_) => true,
    };
    let r = decide_item(item, position, expression, plain_name);
    assert(item_result(r) == classify(views(item@), position, expression, plain_name));
    r
}

/// Parses a whole invocation into its bindings, in order, or reports the
/// first item that asks for none; no bindings are returned then. The result
/// is the one that syn's answers on each item lead to.
pub fn parse_items(tokens: &Vec<Token>) -> (r: Result<Vec<CloneItem>, CloneError>)
    ensures
        exists|answers: Seq<(bool, bool)>|
            answers.len() == item_list(views(tokens@)).len() && items_result(r) == #[trigger] parse_spec(
                views(tokens@),
                answers,
            ),
{
    let groups = split_items(tokens);
    let ghost g = group_views(groups@);
    let ghost mut answers: Seq<(bool, bool)> = Seq::new(
        g.len(),
        |i: int| (true, true),
    );
    let mut out: Vec<CloneItem> = Vec::new();
    let mut i: usize = 0;
    assert(item_views(out@) =~= Seq::<CloneItemView>::empty());
    while i < groups.len()
        invariant
            g == group_views(groups@),
            g == item_list(views(tokens@)),
            answers.len() == g.len(),
            i <= groups.len(),
            classify_prefix(g, answers, i as nat) == Ok::<Seq<CloneItemView>, CloneError>(
                item_views(out@),
            ),
        decreases groups.len() - i,
    {
        let r = parse_item(&groups[i], i + 1);
        let ghost (e_ans, p_ans) = choose|e: bool, p: bool|
            item_result(r) == #[trigger] classify(g[i as int], (i + 1) as usize, e, p);
        let ghost old_answers = answers;
        proof {
            answers = answers.update(i as int, (e_ans, p_ans));
            lemma_classify_prefix_frame(g, old_answers, answers, i as nat);
        }
        match r {
            Ok(it) => {
                let ghost old_out = out@;
                out.push(it);
                assert(item_views(out@) =~= item_views(old_out).push(it@));
            },
            Err(e) => {
                assert(classify_prefix(g, answers, (i + 1) as nat) == Err::<
                    Seq<CloneItemView>,
                    CloneError,
                >(e));
                proof {
                    lemma_classify_prefix_err(g, answers, (i + 1) as nat, g.len());
                }
                assert(items_result(Err(e)) == parse_spec(views(tokens@), answers));
                return Err(e);
            },
        }
        i = i + 1;
    }
    assert(items_result(Ok(out)) == parse_spec(views(tokens@), answers));
    Ok(out)
}

/// A prefix depends only on the answers for its own items.
pub proof fn lemma_classify_prefix_frame(
    items: Seq<Seq<TokenView>>,
    a: Seq<(bool, bool)>,
    b: Seq<(bool, bool)>,
    n: nat,
)
    requires
        n <= a.len(),
        n <= b.len(),
        forall|i: int| 0 <= i < n ==> a[i] == b[i],
    ensures
        classify_prefix(items, a, n) == classify_prefix(items, b, n),
    decreases n,
{
    if n > 0 {
        lemma_classify_prefix_frame(items, a, b, (n - 1) as nat);
    }
}

/// Once an item fails, every longer prefix fails with its error.
pub proof fn lemma_classify_prefix_err(
    items: Seq<Seq<TokenView>>,
    answers: Seq<(bool, bool)>,
    n: nat,
    m: nat,
)
    requires
        n <= m,
        classify_prefix(items, answers, n) is Err,
    ensures
        classify_prefix(items, answers, m) == classify_prefix(items, answers, n),
    decreases m - n,
{
    if n < m {
        lemma_classify_prefix_err(items, answers, n, (m - 1) as nat);
    }
}

} // verus!
