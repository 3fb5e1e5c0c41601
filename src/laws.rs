//! Properties of the expansion as a whole, stated over the models of
//! [`crate::items`] and [`crate::emit`]. Where syn decides part of an item's
//! fate, its answers are a parameter: each law holds whatever they are.

use vstd::prelude::*;

use crate::emit::{binding_view, clone_spec, emit_spec};
use crate::items::{
    angle_depth, classify, classify_prefix, ends_in_separator, is_assignment, item_list,
    parse_spec, segments, CloneError, CloneItemView,
};
use crate::token::{
    ident_text, is_assign, is_comma, is_eq_sign, is_field_access, is_ident, is_path, is_punct,
    is_tuple_index, run, ChainState, Delimiter, TokenView,
};

verus! {

/// An invocation with no items expands to no tokens.
pub proof fn lemma_empty_input(answers: Seq<(bool, bool)>)
    ensures
        clone_spec(Seq::empty(), answers) == Ok::<Seq<TokenView>, CloneError>(Seq::empty()),
{
    assert(item_list(Seq::empty()) =~= Seq::<Seq<TokenView>>::empty());
}

/// The expansion depends on the invocation's tokens and the parser's
/// answers alone: equal token sequences with equal answers expand alike.
pub proof fn lemma_deterministic(a: Seq<TokenView>, b: Seq<TokenView>, answers: Seq<(bool, bool)>)
    requires
        a == b,
    ensures
        clone_spec(a, answers) == clone_spec(b, answers),
{
}

/// A trailing comma neither adds an item nor changes the expansion.
pub proof fn lemma_trailing_comma(s: Seq<TokenView>, comma: TokenView, answers: Seq<(bool, bool)>)
    requires
        s.len() > 0,
        !ends_in_separator(s),
        angle_depth(s) == 0,
        is_comma(comma),
    ensures
        item_list(s.push(comma)) == item_list(s),
        clone_spec(s.push(comma), answers) == clone_spec(s, answers),
{
    assert(s.push(comma).drop_last() =~= s);
    assert(segments(s).push(Seq::empty()).drop_last() =~= segments(s));
}

/// A successful parse of `n` items yields exactly `n` bindings, the `i`-th
/// of them from the `i`-th item at position `i + 1`.
pub proof fn lemma_classify_prefix_ok(
    items: Seq<Seq<TokenView>>,
    answers: Seq<(bool, bool)>,
    n: nat,
)
    requires
        classify_prefix(items, answers, n) is Ok,
    ensures
        classify_prefix(items, answers, n)->Ok_0.len() == n,
        forall|i: int|
            0 <= i < n ==> classify(
                #[trigger] items[i],
                (i + 1) as usize,
                answers[i].0,
                answers[i].1,
            ) == Ok::<CloneItemView, CloneError>(classify_prefix(items, answers, n)->Ok_0[i]),
    decreases n,
{
    if n > 0 {
        lemma_classify_prefix_ok(items, answers, (n - 1) as nat);
    }
}

/// The number of `;` tokens in `s`, that is, of statements.
pub open spec fn statement_count(s: Seq<TokenView>) -> nat
    decreases s.len(),
{
    if s.len() == 0 {
        0
    } else {
        statement_count(s.drop_last()) + if is_punct(s.last(), ';') {
            1nat
        } else {
            0nat
        }
    }
}

proof fn lemma_statement_count_concat(a: Seq<TokenView>, b: Seq<TokenView>)
    ensures
        statement_count(a + b) == statement_count(a) + statement_count(b),
    decreases b.len(),
{
    if b.len() > 0 {
        assert((a + b).drop_last() =~= a + b.drop_last());
        lemma_statement_count_concat(a, b.drop_last());
    }
}

/// A postfix expression holds no `;` and no `=`.
proof fn lemma_chain_clean(s: Seq<TokenView>)
    requires
        run(s) != ChainState::Dead,
    ensures
        statement_count(s) == 0,
        forall|i: int| 0 <= i < s.len() ==> !is_eq_sign(#[trigger] s[i]),
    decreases s.len(),
{
    if s.len() > 0 {
        lemma_chain_clean(s.drop_last());
        assert forall|i: int| 0 <= i < s.len() implies !is_eq_sign(#[trigger] s[i]) by {
            if i < s.len() - 1 {
                assert(s.drop_last()[i] == s[i]);
            }
        }
    }
}

/// An item that classifies to a binding yields an expression with no `;`.
proof fn lemma_classified_no_statement(item: Seq<TokenView>, position: usize, e: bool, p: bool)
    requires
        classify(item, position, e, p) is Ok,
    ensures
        statement_count(classify(item, position, e, p)->Ok_0.expr) == 0,
{
    if is_assignment(item) {
        lemma_chain_clean(item.skip(2));
    } else if item.len() == 1 {
        reveal_with_fuel(statement_count, 2);
        assert(item.drop_last() =~= Seq::<TokenView>::empty());
    } else {
        lemma_chain_clean(item);
    }
}

/// A binding is exactly one statement.
proof fn lemma_binding_one_statement(it: CloneItemView)
    requires
        statement_count(it.expr) == 0,
    ensures
        statement_count(binding_view(it)) == 1,
{
    let pre = seq![TokenView::Ident("let"@), TokenView::Ident(it.name), TokenView::Punct('=', false)];
    let post = seq![
        TokenView::Punct('.', false),
        TokenView::Ident("clone"@),
        TokenView::Group(Delimiter::Parenthesis, Seq::empty()),
        TokenView::Punct(';', false),
    ];
    assert(statement_count(pre) == 0) by {
        reveal_with_fuel(statement_count, 4);
        assert(pre.drop_last().drop_last().drop_last() =~= Seq::<TokenView>::empty());
    }
    assert(statement_count(post) == 1) by {
        reveal_with_fuel(statement_count, 5);
        assert(post.drop_last().drop_last().drop_last().drop_last() =~= Seq::<TokenView>::empty());
    }
    lemma_statement_count_concat(pre, it.expr);
    lemma_statement_count_concat(pre + it.expr, post);
}

proof fn lemma_emit_statements(items: Seq<CloneItemView>)
    requires
        forall|i: int| 0 <= i < items.len() ==> statement_count(#[trigger] items[i].expr) == 0,
    ensures
        statement_count(emit_spec(items)) == items.len(),
    decreases items.len(),
{
    if items.len() > 0 {
        lemma_emit_statements(items.drop_last());
        lemma_binding_one_statement(items.last());
        lemma_statement_count_concat(emit_spec(items.drop_last()), binding_view(items.last()));
    }
}

/// For an invocation that expands, the expansion holds exactly one statement
/// per item, and the bindings come from the items in their order: the
/// `i`-th binding is the one that the `i`-th item yields.
pub proof fn lemma_order_preserved(s: Seq<TokenView>, answers: Seq<(bool, bool)>)
    requires
        clone_spec(s, answers) is Ok,
    ensures
        parse_spec(s, answers) is Ok,
        parse_spec(s, answers)->Ok_0.len() == item_list(s).len(),
        forall|i: int|
            0 <= i < item_list(s).len() ==> classify(
                #[trigger] item_list(s)[i],
                (i + 1) as usize,
                answers[i].0,
                answers[i].1,
            ) == Ok::<CloneItemView, CloneError>(parse_spec(s, answers)->Ok_0[i]),
        clone_spec(s, answers)->Ok_0 == emit_spec(parse_spec(s, answers)->Ok_0),
        statement_count(clone_spec(s, answers)->Ok_0) == item_list(s).len(),
{
    let items = item_list(s);
    lemma_classify_prefix_ok(items, answers, items.len());
    let out = parse_spec(s, answers)->Ok_0;
    assert forall|i: int| 0 <= i < out.len() implies statement_count(#[trigger] out[i].expr) == 0 by {
        assert(classify(items[i], (i + 1) as usize, answers[i].0, answers[i].1) == Ok::<
            CloneItemView,
            CloneError,
        >(out[i]));
        lemma_classified_no_statement(items[i], (i + 1) as usize, answers[i].0, answers[i].1);
    }
    lemma_emit_statements(out);
}

/// The name and the source of the binding an item yields: a lone identifier
/// `x` binds `x` from `x`; an assignment `n = e` binds `n` from `e`; any other
/// accepted item is a field access ending in a named member `m`, and binds
/// `m` from the whole access. The statement is `let name = source.clone();`
/// with the source's tokens kept in order.
pub proof fn lemma_binding_of_item(item: Seq<TokenView>, position: usize, e: bool, p: bool)
    requires
        classify(item, position, e, p) is Ok,
    ensures
        ({
            let it = classify(item, position, e, p)->Ok_0;
            &&& item.len() == 1 ==> it.name == ident_text(item[0]) && it.expr == item
            &&& is_assignment(item) ==> it.name == ident_text(item[0]) && it.expr == item.skip(2)
            &&& item.len() > 1 && !is_assignment(item) ==> is_field_access(item) && is_ident(
                item.last(),
            ) && it.name == ident_text(item.last()) && it.expr == item
            &&& binding_view(it) == seq![
                TokenView::Ident("let"@),
                TokenView::Ident(it.name),
                TokenView::Punct('=', false),
            ] + it.expr + seq![
                TokenView::Punct('.', false),
                TokenView::Ident("clone"@),
                TokenView::Group(Delimiter::Parenthesis, Seq::empty()),
                TokenView::Punct(';', false),
            ]
        }),
{
}

/// A field access that ends in a tuple index is refused for want of a name,
/// and accepted once an assignment gives one (given that the item reads as
/// an expression and, for the second, that the name is plain).
pub proof fn lemma_tuple_field_needs_name(
    name: TokenView,
    assign: TokenView,
    access: Seq<TokenView>,
    position: usize,
    plain_name: bool,
)
    requires
        is_ident(name),
        is_assign(assign),
        is_field_access(access),
        is_tuple_index(access.last()),
    ensures
        classify(access, position, true, plain_name) == Err::<CloneItemView, CloneError>(
            CloneError::TupleFieldWithoutName { position },
        ),
        classify(seq![name, assign] + access, position, true, true) == Ok::<
            CloneItemView,
            CloneError,
        >(CloneItemView { name: ident_text(name), expr: access }),
{
    lemma_chain_clean(access);
    if access.len() == 1 {
        reveal_with_fuel(run, 2);
        assert(access.drop_last() =~= Seq::<TokenView>::empty());
    }
    if access.len() >= 2 {
        assert(!is_eq_sign(access[1]));
    }
    assert((seq![name, assign] + access).skip(2) =~= access);
}

/// An assignment whose right-hand side is neither a path nor a field access
/// is refused with its position (given that the item reads as an expression).
pub proof fn lemma_unsupported_rhs(
    name: TokenView,
    assign: TokenView,
    rhs: Seq<TokenView>,
    position: usize,
    plain_name: bool,
)
    requires
        is_ident(name),
        is_assign(assign),
        rhs.len() > 0,
        !is_path(rhs),
        !is_field_access(rhs),
    ensures
        classify(seq![name, assign] + rhs, position, true, plain_name) == Err::<
            CloneItemView,
            CloneError,
        >(CloneError::UnsupportedRhs { position }),
{
    assert((seq![name, assign] + rhs).skip(2) =~= rhs);
}

} // verus!
