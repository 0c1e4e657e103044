//! Equality, order and joining of strings.

use vstd::prelude::*;

verus! {

/// `==` on `str`: two strings are equal when they hold the same characters.
pub assume_specification[ <str as PartialEq>::eq ](left: &str, right: &str) -> (equal: bool)
    ensures
        equal == (left@ == right@),
;

/// Lexicographic order of two strings by the code points of their characters.
pub open spec fn precedes(left: Seq<char>, right: Seq<char>) -> bool
    decreases left.len(),
{
    if right.len() == 0 {
        false
    } else if left.len() == 0 {
        true
    } else if left[0] == right[0] {
        precedes(left.skip(1), right.skip(1))
    } else {
        (left[0] as int) < (right[0] as int)
    }
}

/// Calls `<` on `str`, which std documents to order strings by the code points of their
/// characters, the first difference deciding and a proper prefix coming first.
#[verifier::external_body]
pub(crate) fn text_precedes(left: &str, right: &str) -> (before: bool)
    ensures
        before == precedes(left@, right@),
{
    left < right
}

/// No string comes before itself.
pub proof fn precedes_irreflexive(text: Seq<char>)
    ensures
        !precedes(text, text),
    decreases text.len(),
{
    if text.len() > 0 {
        precedes_irreflexive(text.skip(1));
    }
}

/// Of two different strings one comes before the other.
pub proof fn precedes_total(left: Seq<char>, right: Seq<char>)
    ensures
        left == right || precedes(left, right) || precedes(right, left),
    decreases left.len(),
{
    if left.len() == 0 {
        assert(right.len() == 0 ==> left =~= right);
    } else if right.len() > 0 && left[0] == right[0] {
        precedes_total(left.skip(1), right.skip(1));
        if left.skip(1) == right.skip(1) {
            assert(left =~= seq![left[0]] + left.skip(1));
            assert(right =~= seq![right[0]] + right.skip(1));
        }
    }
}

/// What comes before a string also comes before everything after that string.
pub proof fn precedes_transitive(first: Seq<char>, second: Seq<char>, third: Seq<char>)
    requires
        precedes(first, second),
        precedes(second, third),
    ensures
        precedes(first, third),
    decreases first.len(),
{
    if first.len() > 0 && first[0] == second[0] && second[0] == third[0] {
        precedes_transitive(first.skip(1), second.skip(1), third.skip(1));
    }
}

/// The items in their order, each but the first behind a comma and a blank.
pub open spec fn comma_joined(items: Seq<String>) -> Seq<char>
    decreases items.len(),
{
    if items.len() == 0 {
        Seq::empty()
    } else if items.len() == 1 {
        items[0]@
    } else {
        comma_joined(items.drop_last()) + seq![',', ' '] + items.last()@
    }
}

/// The items between square brackets, separated by a comma and a blank.
pub open spec fn bracketed(items: Seq<String>) -> Seq<char> {
    seq!['['] + comma_joined(items) + seq![']']
}

/// Renders a list from the renderings of its elements, as `{:?}` does for a `Vec`.
pub fn list_text(items: &Vec<String>) -> (text: String)
    ensures
        text@ == bracketed(items@),
{
    proof {
        reveal_strlit("[");
        reveal_strlit(", ");
        reveal_strlit("]");
    }
    let mut text = "[".to_owned();
    for i in 0..items.len()
        invariant
            text@ == seq!['['] + comma_joined(items@.take(i as int)),
            ", "@ == seq![',', ' '],
    {
        assert(items@.take(i + 1).drop_last() =~= items@.take(i as int));
        if i > 0 {
            text.append(", ");
        }
        text.append(items[i].as_str());
        assert(text@ =~= seq!['['] + comma_joined(items@.take(i + 1)));
    }
    assert(items@.take(items@.len() as int) =~= items@);
    text.append("]");
    assert(text@ =~= bracketed(items@));
    text
}

/// Whether the strings agree in the first `k` characters and then the left one ends before the right
/// one does, or has the character with the smaller code point.
spec fn smaller_behind(left: Seq<char>, right: Seq<char>, k: int) -> bool {
    &&& 0 <= k <= left.len()
    &&& k < right.len()
    &&& left.take(k) == right.take(k)
    &&& k < left.len() ==> (left[k] as int) < (right[k] as int)
}

proof fn lemma_precedes(left: Seq<char>, right: Seq<char>)
    ensures
        precedes(left, right) ==> exists|k: int| #[trigger] smaller_behind(left, right, k),
        forall|k: int| #[trigger] smaller_behind(left, right, k) ==> precedes(left, right),
    decreases left.len(),
{
    let l = left.skip(1);
    let r = right.skip(1);
    if left.len() > 0 && right.len() > 0 && left[0] == right[0] {
        lemma_precedes(l, r);
        if precedes(left, right) {
            let k = choose|k: int| #[trigger] smaller_behind(l, r, k);
            assert(left.take(k + 1) =~= seq![left[0]] + l.take(k));
            assert(right.take(k + 1) =~= seq![right[0]] + r.take(k));
            assert(smaller_behind(left, right, k + 1));
        }
        assert forall|k: int| #[trigger] smaller_behind(left, right, k) implies precedes(
            left,
            right,
        ) by {
            assert(l.take(k - 1) =~= left.take(k).skip(1));
            assert(r.take(k - 1) =~= right.take(k).skip(1));
            assert(smaller_behind(l, r, k - 1));
        }
    } else {
        assert(left.take(0) =~= right.take(0));
        assert(precedes(left, right) ==> smaller_behind(left, right, 0));
        assert forall|k: int| #[trigger] smaller_behind(left, right, k) implies precedes(
            left,
            right,
        ) by {
            if k > 0 {
                assert(left.take(k)[0] == right.take(k)[0]);
            }
        }
    }
}

/// One string comes before another if, behind what both begin with, it ends and the other does not,
/// or it has the character with the smaller code point; and only then.
pub proof fn precedes_by_the_first_difference(left: Seq<char>, right: Seq<char>)
    ensures
        precedes(left, right) <==> exists|k: int|
            {
                &&& 0 <= k <= left.len()
                &&& k < right.len()
                &&& #[trigger] left.take(k) == right.take(k)
                &&& k < left.len() ==> (left[k] as int) < (right[k] as int)
            },
{
    lemma_precedes(left, right);
    if precedes(left, right) {
        let k = choose|k: int| #[trigger] smaller_behind(left, right, k);
        assert(left.take(k) == right.take(k));
    }
    assert forall|k: int|
        {
            &&& 0 <= k <= left.len()
            &&& k < right.len()
            &&& #[trigger] left.take(k) == right.take(k)
            &&& k < left.len() ==> (left[k] as int) < (right[k] as int)
        } implies precedes(left, right) by {
        assert(smaller_behind(left, right, k));
    }
}

/// An empty list is a pair of brackets, a list of one item that item between brackets.
pub proof fn short_lists_are_bracketed(items: Vec<String>, text: String)
    requires
        call_ensures(list_text, (&items,), text),
    ensures
        items@.len() == 0 ==> text@ == seq!['[', ']'],
        items@.len() == 1 ==> text@ == seq!['['] + items@[0]@ + seq![']'],
{
    assert(items@.len() == 0 ==> text@ =~= seq!['[', ']']);
}

/// One more item comes before the closing bracket, behind a comma and a blank if it is not the first;
/// all before it stays.
pub proof fn longer_list_keeps_what_it_had(
    items: Vec<String>,
    longer: Vec<String>,
    text: String,
    longer_text: String,
)
    requires
        call_ensures(list_text, (&items,), text),
        call_ensures(list_text, (&longer,), longer_text),
        items@.len() > 0,
        longer@.len() == items@.len() + 1,
        longer@.drop_last() == items@,
    ensures
        longer_text@ == text@.drop_last() + seq![',', ' '] + longer@.last()@ + seq![']'],
{
    assert(longer_text@ =~= text@.drop_last() + seq![',', ' '] + longer@.last()@ + seq![']']);
}

} // verus!
