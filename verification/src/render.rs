//! Rendering a view as text.
//!
//! A view renders as the list of the elements it shows: the elements' own
//! renderings in the order of the view, with a comma and a space between each
//! two, in square brackets. The gaps of the buffer are not rendered.

use crate::view::Stride;
use vstd::prelude::*;

verus! {

/// The texts of `parts` in order, with a comma and a space between each two.
pub open spec fn joined(parts: Seq<Seq<char>>) -> Seq<char>
    decreases parts.len(),
{
    if parts.len() == 0 {
        Seq::empty()
    } else if parts.len() == 1 {
        parts[0]
    } else {
        joined(parts.drop_last()) + seq![',', ' '] + parts.last()
    }
}

/// The list of `parts` as text: the parts joined, in square brackets.
pub open spec fn listed(parts: Seq<Seq<char>>) -> Seq<char> {
    seq!['['] + joined(parts) + seq![']']
}

/// The texts that `parts` hold.
pub open spec fn texts(parts: Seq<String>) -> Seq<Seq<char>> {
    parts.map_values(|part: String| part@)
}

/// Renders one element the way `core::fmt::Debug` renders it, through
/// `format!("{:?}", ..)`. Nothing is claimed of the text: what it is lies with
/// the element type's own `Debug`.
#[verifier::external_body]
fn debug_text<T: core::fmt::Debug>(value: &T) -> (text: String) {
    format!("{:?}", value)
}

/// Renders the list of `parts`: the parts in order, separated by a comma and a
/// space, in square brackets.
pub fn list_text(parts: &Vec<String>) -> (text: String)
    ensures
        text@ == listed(texts(parts@)),
{
    proof {
        reveal_strlit("[");
        reveal_strlit(", ");
        reveal_strlit("]");
    }
    let mut text = String::from_str("[");
    let mut i: usize = 0;
    while i < parts.len()
        invariant
            i <= parts.len(),
            text@ == seq!['['] + joined(texts(parts@).subrange(0, i as int)),
            "["@ == seq!['['],
            ", "@ == seq![',', ' '],
        decreases parts.len() - i,
    {
        let ghost done = texts(parts@).subrange(0, i as int);
        let ghost more = texts(parts@).subrange(0, i + 1);
        assert(more.drop_last() =~= done);
        assert(more.last() == parts@[i as int]@);
        if i > 0 {
            text.append(", ");
            assert(text@ =~= seq!['['] + (joined(done) + seq![',', ' ']));
        }
        text.append(parts[i].as_str());
        assert(text@ =~= seq!['['] + joined(more));
        i += 1;
    }
    assert(texts(parts@).subrange(0, i as int) =~= texts(parts@));
    text.append("]");
    text
}

impl<'a, T: core::fmt::Debug, const S: usize> Stride<'a, T, S> {
    /// Renders the view as the list of the elements it shows, each as its own
    /// `Debug` renders it: one part for every visible element, in the order of
    /// the view, separated by a comma and a space, in square brackets.
    pub fn debug_string(&self) -> (text: String)
        ensures
            exists|parts: Seq<Seq<char>>|
                parts.len() == self@.len() && text@ == #[trigger] listed(parts),
    {
        let mut parts: Vec<String> = Vec::new();
        let mut items = self.iter();
        loop
            invariant
                parts@.len() + items@.len() == self@.len(),
            ensures
                parts@.len() == self@.len(),
            decreases items@.len(),
        {
            match items.next() {
                Some(elem) => {
                    parts.push(debug_text(elem));
                },
                None => {
                    break ;
                },
            }
        }
        let text = list_text(&parts);
        assert(texts(parts@).len() == self@.len());
        text
    }
}

} // verus!
