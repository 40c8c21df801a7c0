use vstd::prelude::*;

use crate::drawable::DrawRef;
use crate::ids::RenderOrder;
use crate::sorting::{stable_sort_by_key, stable_sort_spec, Keyed};

verus! {

/// Each renderable paired with its z-order as the sort key.
pub open spec fn keyed_by_zorder(s: Seq<DrawRef>) -> Seq<Keyed<DrawRef>> {
    Seq::new(s.len(), |i: int| Keyed { key: s[i].zorder, val: s[i] })
}

pub open spec fn vals_of(s: Seq<Keyed<DrawRef>>) -> Seq<DrawRef> {
    Seq::new(s.len(), |i: int| s[i].val)
}

/// The draw sequence a frame delivers: the merged candidates stable-sorted
/// by z-order (equal z-orders keep their merge order), reversed when the
/// requested order is front to back.
pub open spec fn render_order_spec(s: Seq<DrawRef>, order: RenderOrder) -> Seq<DrawRef> {
    let sorted = vals_of(stable_sort_spec(keyed_by_zorder(s)));
    if order == RenderOrder::FrontToBack {
        sorted.reverse()
    } else {
        sorted
    }
}

/// Stable-sorts the merged draw candidates by z-order and orients the
/// result: back to front as sorted, front to back reversed.
pub fn sorted_for_render(items: &Vec<DrawRef>, order: RenderOrder) -> (r: Vec<DrawRef>)
    ensures
        r@ == render_order_spec(items@, order),
{
    let mut keyed: Vec<Keyed<DrawRef>> = Vec::new();
    let mut i: usize = 0;
    while i < items.len()
        invariant
            i <= items@.len(),
            keyed@ == keyed_by_zorder(items@.take(i as int)),
        decreases items@.len() - i,
    {
        let x = items[i];
        keyed.push(Keyed { key: x.zorder, val: x });
        proof {
            assert(keyed@ =~= keyed_by_zorder(items@.take(i + 1)));
        }
        i = i + 1;
    }
    proof {
        assert(items@.take(items@.len() as int) =~= items@);
    }
    let sorted = stable_sort_by_key(&keyed);
    let mut flat: Vec<DrawRef> = Vec::new();
    let mut i: usize = 0;
    while i < sorted.len()
        invariant
            i <= sorted@.len(),
            sorted@ == stable_sort_spec(keyed_by_zorder(items@)),
            flat@ == vals_of(sorted@).take(i as int),
        decreases sorted@.len() - i,
    {
        flat.push(sorted[i].val);
        proof {
            assert(flat@ =~= vals_of(sorted@).take(i + 1));
        }
        i = i + 1;
    }
    proof {
        assert(flat@ =~= vals_of(sorted@));
    }
    if order == RenderOrder::FrontToBack {
        reversed(&flat)
    } else {
        flat
    }
}

/// A copy of `v` in reverse order.
fn reversed(v: &Vec<DrawRef>) -> (r: Vec<DrawRef>)
    ensures
        r@ == v@.reverse(),
{
    let mut r: Vec<DrawRef> = Vec::new();
    let mut i: usize = 0;
    while i < v.len()
        invariant
            i <= v@.len(),
            r@.len() == i as nat,
            forall|j: int| 0 <= j < i ==> r@[j] == v@[v@.len() - 1 - j],
        decreases v@.len() - i,
    {
        r.push(v[v.len() - 1 - i]);
        i = i + 1;
    }
    proof {
        assert(r@ =~= v@.reverse());
    }
    r
}

/// Law: the front-to-back draw sequence is the exact reverse of the
/// back-to-front one.
pub proof fn law_front_to_back_reverses(s: Seq<DrawRef>)
    ensures
        render_order_spec(s, RenderOrder::FrontToBack) == render_order_spec(
            s,
            RenderOrder::BackToFront,
        ).reverse(),
{
}

/// Law: in back-to-front order z-orders never decrease along the delivered
/// sequence (lower is drawn first), and in front-to-back order they never
/// increase.
pub proof fn law_render_order_sorted(s: Seq<DrawRef>, order: RenderOrder)
    ensures
        order == RenderOrder::BackToFront ==> forall|i: int, j: int|
            0 <= i < j < render_order_spec(s, order).len() ==> render_order_spec(s, order)[i].zorder
                <= render_order_spec(s, order)[j].zorder,
        order == RenderOrder::FrontToBack ==> forall|i: int, j: int|
            0 <= i < j < render_order_spec(s, order).len() ==> render_order_spec(s, order)[i].zorder
                >= render_order_spec(s, order)[j].zorder,
{
    let keyed = keyed_by_zorder(s);
    let sorted = crate::sorting::stable_sort_spec(keyed);
    crate::sorting::law_stable_sort_sorted(keyed);
    assert forall|p: int| 0 <= p < sorted.len() implies (#[trigger] sorted[p]).key
        == sorted[p].val.zorder by {
        crate::sorting::law_stable_sort_members(keyed, p);
        let i = choose|i: int| 0 <= i < keyed.len() && keyed[i] == sorted[p];
    }
    let flat = vals_of(sorted);
    assert(forall|i: int, j: int|
        0 <= i < j < flat.len() ==> (#[trigger] flat[i]).zorder <= (#[trigger] flat[j]).zorder);
    if order == RenderOrder::FrontToBack {
        let out = render_order_spec(s, order);
        assert(out == flat.reverse());
        assert forall|i: int, j: int| 0 <= i < j < out.len() implies (#[trigger] out[i]).zorder
            >= (#[trigger] out[j]).zorder by {
            assert(out[i] == flat[flat.len() - 1 - i]);
            assert(out[j] == flat[flat.len() - 1 - j]);
        }
    }
}

/// What a consumer gets to see of `items` when its successive answers are
/// `answers`: objects are delivered in order, and delivery stops right after
/// the first `false`.
pub open spec fn delivered_spec(items: Seq<DrawRef>, answers: Seq<bool>) -> Seq<DrawRef>
    decreases items.len(),
{
    if items.len() == 0 {
        Seq::empty()
    } else if answers.len() == 0 || !answers[0] {
        seq![items[0]]
    } else {
        seq![items[0]] + delivered_spec(items.drop_first(), answers.drop_first())
    }
}

/// Replays a consumer's recorded answers over a draw sequence, returning
/// exactly what would have been delivered.
pub fn delivered_items(items: &Vec<DrawRef>, answers: &Vec<bool>) -> (r: Vec<DrawRef>)
    requires
        items@.len() <= answers@.len(),
    ensures
        r@ == delivered_spec(items@, answers@),
{
    let mut r: Vec<DrawRef> = Vec::new();
    let mut i: usize = 0;
    let mut go = true;
    proof {
        assert(items@.skip(0) =~= items@);
        assert(answers@.skip(0) =~= answers@);
        assert(r@ + delivered_spec(items@, answers@) =~= delivered_spec(items@, answers@));
    }
    while go && i < items.len()
        invariant
            i <= items@.len(),
            items@.len() <= answers@.len(),
            go ==> delivered_spec(items@, answers@) == r@ + delivered_spec(
                items@.skip(i as int),
                answers@.skip(i as int),
            ),
            !go ==> r@ == delivered_spec(items@, answers@),
        decreases items@.len() - i, (if go { 1int } else { 0 }),
    {
        r.push(items[i]);
        let a = answers[i];
        proof {
            let its = items@.skip(i as int);
            let ans = answers@.skip(i as int);
            assert(its[0] == items@[i as int]);
            assert(ans[0] == answers@[i as int]);
            assert(its.drop_first() =~= items@.skip(i + 1));
            assert(ans.drop_first() =~= answers@.skip(i + 1));
            if a {
                assert(delivered_spec(its, ans) == seq![its[0]] + delivered_spec(
                    items@.skip(i + 1),
                    answers@.skip(i + 1),
                ));
            } else {
                assert(delivered_spec(its, ans) == seq![its[0]]);
            }
        }
        i = i + 1;
        if !a {
            go = false;
        }
    }
    proof {
        if go {
            assert(items@.skip(items@.len() as int) =~= Seq::<DrawRef>::empty());
            assert(delivered_spec(items@.skip(i as int), answers@.skip(i as int))
                =~= Seq::<DrawRef>::empty());
        }
    }
    r
}

/// Law: early abort — when the consumer accepts the first `j` objects and
/// declines the next one, delivery stops there: what is delivered is exactly
/// the first `j + 1` objects (fewer only if the sequence itself is shorter),
/// and nothing after them is ever delivered, however many remain.
pub proof fn law_early_abort(items: Seq<DrawRef>, answers: Seq<bool>, j: int)
    requires
        0 <= j < answers.len(),
        !answers[j],
        forall|i: int| 0 <= i < j ==> answers[i],
    ensures
        delivered_spec(items, answers).len() <= j + 1,
        delivered_spec(items, answers) == items.take(
            if items.len() <= j + 1 {
                items.len() as int
            } else {
                j + 1
            },
        ),
    decreases j,
{
    if items.len() == 0 {
        assert(delivered_spec(items, answers) =~= items.take(0));
    } else if j == 0 {
        assert(delivered_spec(items, answers) == seq![items[0]]);
        assert(seq![items[0]] =~= items.take(1));
    } else {
        let d = items.drop_first();
        let a = answers.drop_first();
        assert(forall|i: int| 0 <= i < j - 1 ==> a[i]);
        law_early_abort(d, a, j - 1);
        let cut = if d.len() <= j { d.len() as int } else { j };
        assert(delivered_spec(items, answers) == seq![items[0]] + d.take(cut));
        assert(seq![items[0]] + d.take(cut) =~= items.take(
            if items.len() <= j + 1 {
                items.len() as int
            } else {
                j + 1
            },
        ));
    }
}

/// Law: a consumer that accepts everything is delivered the whole sequence.
pub proof fn law_full_delivery(items: Seq<DrawRef>, answers: Seq<bool>)
    requires
        items.len() <= answers.len(),
        forall|i: int| 0 <= i < answers.len() ==> answers[i],
    ensures
        delivered_spec(items, answers) == items,
    decreases items.len(),
{
    if items.len() > 0 {
        let d = items.drop_first();
        let a = answers.drop_first();
        assert(forall|i: int| 0 <= i < a.len() ==> a[i]);
        law_full_delivery(d, a);
        assert(seq![items[0]] + d =~= items);
    }
}

} // verus!
