//! The textual form of maps and sets: `{a, b}` for members and
//! `{k: v, ...}` for entries, each item already rendered.

use vstd::prelude::*;
use vstd::string::StringExecFns;

verus! {

/// The items separated by `", "`.
pub open spec fn spec_joined(items: Seq<Seq<char>>) -> Seq<char>
    decreases items.len(),
{
    if items.len() == 0 {
        Seq::empty()
    } else if items.len() == 1 {
        items[0]
    } else {
        spec_joined(items.drop_last()) + seq![',', ' '] + items.last()
    }
}

/// The items separated by `", "` between a pair of braces.
pub open spec fn spec_braced(items: Seq<Seq<char>>) -> Seq<char> {
    seq!['{'] + spec_joined(items) + seq!['}']
}

/// A key and its value, as `key: value`.
pub open spec fn spec_pair(key: Seq<char>, value: Seq<char>) -> Seq<char> {
    key + seq![':', ' '] + value
}

/// The text form of no items is `{}`, of one item is that item between
/// braces, and appending an item to a non-empty list inserts `", "` and the
/// item before the closing brace.
pub proof fn lemma_braced_shape(items: Seq<Seq<char>>, x: Seq<char>)
    ensures
        spec_braced(Seq::empty()) == seq!['{', '}'],
        spec_braced(seq![x]) == seq!['{'] + x + seq!['}'],
        items.len() > 0 ==> spec_braced(items.push(x)) == spec_braced(items).drop_last() + seq![',', ' ']
            + x + seq!['}'],
{
    assert(seq!['{'] + Seq::<char>::empty() + seq!['}'] =~= seq!['{', '}']);
    if items.len() > 0 {
        assert(items.push(x).drop_last() =~= items);
        assert((seq!['{'] + spec_joined(items) + seq!['}']).drop_last() =~= seq!['{'] + spec_joined(items));
        assert(spec_braced(items.push(x)) =~= spec_braced(items).drop_last() + seq![',', ' '] + x + seq!['}']);
    }
}

/// Renders already rendered members as a set: `{a, b, c}`.
pub fn show_set(items: &Vec<String>) -> (s: String)
    ensures
        s@ == spec_braced(items@.map_values(|x: String| x@)),
{
    let ghost views = items@.map_values(|x: String| x@);
    let mut s = String::from_str("{");
    proof {
        reveal_strlit("{");
        reveal_strlit(", ");
        reveal_strlit("}");
        assert(views.take(0) =~= Seq::<Seq<char>>::empty());
    }
    let n = items.len();
    let mut i: usize = 0;
    while i < n
        invariant
            n == items@.len(),
            views == items@.map_values(|x: String| x@),
            i <= n,
            s@ == seq!['{'] + spec_joined(views.take(i as int)),
            ", "@ == seq![',', ' '],
        decreases n - i,
    {
        assert(views.take(i + 1).drop_last() =~= views.take(i as int));
        if i != 0 {
            s.append(", ");
        }
        s.append(items[i].as_str());
        proof {
            if i == 0 {
                assert(views.take(1) =~= seq![views[0]]);
            }
        }
        assert(s@ =~= seq!['{'] + spec_joined(views.take(i + 1)));
        i = i + 1;
    }
    assert(views.take(n as int) =~= views);
    s.append("}");
    s
}

/// Renders already rendered keys and values as a map: `{k1: v1, k2: v2}`.
pub fn show_map(pairs: &Vec<(String, String)>) -> (s: String)
    ensures
        s@ == spec_braced(pairs@.map_values(|p: (String, String)| spec_pair(p.0@, p.1@))),
{
    let mut items: Vec<String> = Vec::new();
    let n = pairs.len();
    let mut i: usize = 0;
    proof {
        reveal_strlit(": ");
    }
    while i < n
        invariant
            n == pairs@.len(),
            i <= n,
            items@.len() == i,
            ": "@ == seq![':', ' '],
            forall|j: int| 0 <= j < i ==> #[trigger] items@[j]@ == spec_pair(pairs@[j].0@, pairs@[j].1@),
        decreases n - i,
    {
        let mut item = String::from_str(pairs[i].0.as_str());
        item.append(": ");
        item.append(pairs[i].1.as_str());
        items.push(item);
        i = i + 1;
    }
    assert(items@.map_values(|x: String| x@) =~= pairs@.map_values(
        |p: (String, String)| spec_pair(p.0@, p.1@),
    ));
    show_set(&items)
}

} // verus!
