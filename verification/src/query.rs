//! Query parameters of the geocode and address endpoints.

use crate::auth::{pair_view, pairs_view};
use crate::text;
use vstd::prelude::*;

verus! {

/// Loose query parameters: names with values, each name once.
#[derive(Debug)]
pub struct Query {
    pairs: Vec<(String, String)>,
}

impl View for Query {
    type V = Seq<(Seq<char>, Seq<char>)>;

    closed spec fn view(&self) -> Seq<(Seq<char>, Seq<char>)> {
        pairs_view(self.pairs@)
    }
}

/// Whether a name occurs among pairs.
pub open spec fn names(pairs: Seq<(Seq<char>, Seq<char>)>, name: Seq<char>) -> bool {
    exists|i: int| 0 <= i < pairs.len() && (#[trigger] pairs[i]).0 == name
}

/// Where a name occurs.
pub open spec fn place(pairs: Seq<(Seq<char>, Seq<char>)>, name: Seq<char>) -> int {
    choose|i: int| 0 <= i < pairs.len() && (#[trigger] pairs[i]).0 == name
}

/// The pairs with one more: a name that is there gets the new value.
pub open spec fn with(pairs: Seq<(Seq<char>, Seq<char>)>, name: Seq<char>, value: Seq<char>) -> Seq<
    (Seq<char>, Seq<char>),
> {
    if names(pairs, name) {
        pairs.update(place(pairs, name), (name, value))
    } else {
        pairs.push((name, value))
    }
}

/// The parameters that a list of pairs makes.
pub open spec fn collected(list: Seq<(Seq<char>, Seq<char>)>) -> Seq<(Seq<char>, Seq<char>)>
    decreases list.len(),
{
    if list.len() == 0 {
        Seq::empty()
    } else {
        with(collected(list.drop_last()), list.last().0, list.last().1)
    }
}

/// Each name occurs once.
pub open spec fn distinct_names(pairs: Seq<(Seq<char>, Seq<char>)>) -> bool {
    forall|i: int, j: int|
        0 <= i < j < pairs.len() ==> (#[trigger] pairs[i]).0 != (#[trigger] pairs[j]).0
}

/// Pairs with a value.
pub open spec fn has_value() -> spec_fn((Seq<char>, Seq<char>)) -> bool {
    |p: (Seq<char>, Seq<char>)| p.1.len() > 0
}

/// The list of borrowed pairs as texts.
pub open spec fn list_view(list: Seq<(&str, &str)>) -> Seq<(Seq<char>, Seq<char>)> {
    list.map_values(|p: (&str, &str)| (p.0@, p.1@))
}

impl Query {
    pub open spec fn wf(&self) -> bool {
        distinct_names(self@)
    }

    pub fn new() -> (r: Self)
        ensures
            r.wf(),
            r@ == Seq::<(Seq<char>, Seq<char>)>::empty(),
    {
        let r = Query { pairs: Vec::new() };
        assert(r@ =~= Seq::<(Seq<char>, Seq<char>)>::empty());
        r
    }

    /// Sets a parameter.
    pub fn set(&mut self, name: &str, value: &str)
        requires
            old(self).wf(),
        ensures
            final(self).wf(),
            final(self)@ == with(old(self)@, name@, value@),
    {
        let ghost before = self@;
        let mut i: usize = 0;
        while i < self.pairs.len()
            invariant
                i <= self.pairs@.len(),
                self@ == before,
                before == old(self)@,
                self.pairs@.len() == before.len(),
                distinct_names(before),
                forall|j: int| 0 <= j < i ==> (#[trigger] before[j]).0 != name@,
            decreases self.pairs@.len() - i,
        {
            if text::str_eq(self.pairs[i].0.as_str(), name) {
                assert(before[i as int].0 == name@);
                assert(place(before, name@) == i) by {
                    let p = place(before, name@);
                    assert(before[p].0 == name@);
                }
                self.pairs[i] = (name.to_owned(), value.to_owned());
                assert(self@ =~= before.update(i as int, (name@, value@)));
                return;
            }
            assert(before[i as int].0 != name@);
            i += 1;
        }
        self.pairs.push((name.to_owned(), value.to_owned()));
        assert(self@ =~= before.push((name@, value@)));
    }

    /// The pairs with a value.
    pub fn query_pairs(&self) -> (r: Vec<(String, String)>)
        ensures
            pairs_view(r@) == self@.filter(has_value()),
    {
        let mut out: Vec<(String, String)> = Vec::new();
        let mut i: usize = 0;
        let ghost all = self@;
        proof {
            reveal(Seq::filter);
            assert(pairs_view(out@) =~= all.take(0).filter(has_value()));
        }
        while i < self.pairs.len()
            invariant
                i <= self.pairs@.len(),
                all == pairs_view(self.pairs@),
                pairs_view(out@) == all.take(i as int).filter(has_value()),
            decreases self.pairs@.len() - i,
        {
            proof {
                reveal(Seq::filter);
                assert(all.take(i + 1).drop_last() =~= all.take(i as int));
                assert(all.take(i + 1).last() == pair_view(self.pairs@[i as int]));
            }
            let ghost before = pairs_view(out@);
            if self.pairs[i].1.as_str().unicode_len() > 0 {
                let p = (self.pairs[i].0.clone(), self.pairs[i].1.clone());
                out.push(p);
                assert(pairs_view(out@) =~= before.push(all[i as int]));
            }
            i += 1;
        }
        assert(all.take(i as int) =~= all);
        out
    }
}

/// Builds a [`Query`] from pairs; of a name that comes twice the later value stays.
pub fn query(pairs: &[(&str, &str)]) -> (r: Query)
    ensures
        r.wf(),
        r@ == collected(list_view(pairs@)),
{
    let mut q = Query::new();
    let mut i: usize = 0;
    let ghost all = list_view(pairs@);
    while i < pairs.len()
        invariant
            i <= pairs@.len(),
            all == list_view(pairs@),
            q.wf(),
            q@ == collected(all.take(i as int)),
        decreases pairs@.len() - i,
    {
        assert(all.take(i + 1).drop_last() =~= all.take(i as int));
        q.set(pairs[i].0, pairs[i].1);
        i += 1;
    }
    assert(all.take(i as int) =~= all);
    q
}

/// A parameter reads as it was last set, and setting it touches no other.
pub proof fn law_last_value_wins(
    pairs: Seq<(Seq<char>, Seq<char>)>,
    name: Seq<char>,
    value: Seq<char>,
    other: Seq<char>,
)
    requires
        distinct_names(pairs),
        other != name,
    ensures
        distinct_names(with(pairs, name, value)),
        with(pairs, name, value).contains((name, value)),
        names(with(pairs, name, value), other) == names(pairs, other),
        names(pairs, other) ==> with(pairs, name, value)[place(pairs, other)] == pairs[place(
            pairs,
            other,
        )],
{
    let after = with(pairs, name, value);
    if names(pairs, name) {
        let p = place(pairs, name);
        assert(after[p] == (name, value));
    } else {
        assert(after[pairs.len() as int] == (name, value));
    }
    if names(pairs, other) {
        let k = place(pairs, other);
        assert(pairs[k].0 == other);
        assert(after[k].0 == other);
    }
    if names(after, other) {
        let k = choose|k: int| 0 <= k < after.len() && (#[trigger] after[k]).0 == other;
        assert(k < pairs.len());
        assert(pairs[k].0 == other);
    }
}

/// Setting a parameter leaves it there once, with the new value; it keeps its place if it was
/// there and comes last if it was not. All others keep place and value.
pub proof fn law_setting_a_parameter(
    pairs: Seq<(Seq<char>, Seq<char>)>,
    name: Seq<char>,
    value: Seq<char>,
    i: int,
)
    requires
        forall|a: int, b: int|
            0 <= a < b < pairs.len() ==> (#[trigger] pairs[a]).0 != (#[trigger] pairs[b]).0,
    ensures
        ({
            let t = with(pairs, name, value);
            &&& 0 <= i < pairs.len() && pairs[i].0 == name ==> t.len() == pairs.len() && t[i] == (
                name,
                value,
            )
            &&& 0 <= i < pairs.len() && pairs[i].0 != name ==> t[i] == pairs[i]
            &&& (forall|k: int| 0 <= k < pairs.len() ==> (#[trigger] pairs[k]).0 != name)
                ==> t.len() == pairs.len() + 1 && t.last() == (name, value)
            &&& t.contains((name, value))
        }),
{
    let t = with(pairs, name, value);
    if names(pairs, name) {
        let p = place(pairs, name);
        assert(pairs[p].0 == name);
        assert(t[p] == (name, value));
        if 0 <= i < pairs.len() && pairs[i].0 == name && i != p {
            assert(if i < p {
                pairs[i].0 != pairs[p].0
            } else {
                pairs[p].0 != pairs[i].0
            });
        }
    } else {
        assert(t[pairs.len() as int] == (name, value));
    }
}

/// A list of pairs gives each name the last value that it has in the list, and no other pairs.
pub proof fn law_a_list_gives_each_name_its_last_value(
    list: Seq<(Seq<char>, Seq<char>)>,
    name: Seq<char>,
    value: Seq<char>,
)
    ensures
        collected(list).contains((name, value)) <==> exists|i: int|
            0 <= i < list.len() && #[trigger] list[i] == (name, value) && forall|j: int|
                i < j < list.len() ==> (#[trigger] list[j]).0 != name,
        forall|a: int, b: int|
            0 <= a < b < collected(list).len() ==> (#[trigger] collected(list)[a]).0 != (
            #[trigger] collected(list)[b]).0,
    decreases list.len(),
{
    if list.len() > 0 {
        let head = list.drop_last();
        let (n, v) = list.last();
        let c = collected(head);
        let t = collected(list);
        law_a_list_gives_each_name_its_last_value(head, name, value);
        assert(distinct_names(c));
        law_last_value_wins(c, n, v, seq![' '] + n);
        assert(seq![' '] + n != n) by {
            assert((seq![' '] + n).len() == n.len() + 1);
        }
        let last = list.len() - 1;
        if t.contains((name, value)) {
            let k = choose|k: int| 0 <= k < t.len() && t[k] == (name, value);
            if name == n {
                if names(c, n) {
                    let p = place(c, n);
                    assert(c[p].0 == n);
                    if k != p {
                        assert(t[k] == c[k]);
                        assert(c[k].0 == c[p].0);
                    }
                } else if k < c.len() {
                    assert(c[k].0 == n);
                }
                assert(value == v);
                assert(list[last] == (name, value));
            } else {
                assert(k < c.len() && c[k] == (name, value)) by {
                    if names(c, n) {
                        assert(k != place(c, n));
                    }
                }
                assert(c.contains((name, value)));
                let i = choose|i: int|
                    0 <= i < head.len() && #[trigger] head[i] == (name, value) && forall|j: int|
                        i < j < head.len() ==> (#[trigger] head[j]).0 != name;
                assert(list[i] == (name, value));
                assert forall|j: int| i < j < list.len() implies (#[trigger] list[j]).0 != name by {
                    if j < head.len() {
                        assert(head[j] == list[j]);
                    }
                }
            }
        }
        if exists|i: int|
            0 <= i < list.len() && #[trigger] list[i] == (name, value) && forall|j: int|
                i < j < list.len() ==> (#[trigger] list[j]).0 != name {
            let i = choose|i: int|
                0 <= i < list.len() && #[trigger] list[i] == (name, value) && forall|j: int|
                    i < j < list.len() ==> (#[trigger] list[j]).0 != name;
            if i == last {
                assert(t.contains((name, value)));
            } else {
                assert(list[last].0 != name);
                assert(head[i] == (name, value));
                assert forall|j: int| i < j < head.len() implies (#[trigger] head[j]).0 != name by {
                    assert(head[j] == list[j]);
                }
                assert(c.contains((name, value)));
                let k = choose|k: int| 0 <= k < c.len() && c[k] == (name, value);
                assert(t[k] == (name, value)) by {
                    if names(c, n) {
                        assert(c[place(c, n)].0 == n);
                    }
                }
            }
        }
    }
}

/// A list of borrowed pairs shows as it is.
pub proof fn law_lists_show_as_they_are(list: Seq<(&str, &str)>, i: int)
    requires
        0 <= i < list.len(),
    ensures
        list_view(list).len() == list.len(),
        list_view(list)[i].0 == list[i].0@,
        list_view(list)[i].1 == list[i].1@,
{
}

} // verus!
