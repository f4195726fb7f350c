//! Workspace tags: an ordered list of names, no two of them the same.

use vstd::prelude::*;
use crate::action::texts;

verus! {

/// The tags of the workspaces, in the order in which they are cycled through and shown.
#[derive(Debug, PartialEq, Eq)]
pub struct TagList {
    names: Vec<String>,
}

impl View for TagList {
    type V = Seq<Seq<char>>;

    closed spec fn view(&self) -> Seq<Seq<char>> {
        texts(self.names@)
    }
}

/// The place of `tag` in `tags`, if it is one of them.
pub open spec fn place_of(tags: Seq<Seq<char>>, tag: Seq<char>) -> Option<int> {
    if tags.contains(tag) {
        Some(tags.index_of(tag))
    } else {
        None
    }
}

/// The place of the first of `names` that `text` equals, from `from` on.
fn find_from(names: &Vec<String>, from: usize, text: &String) -> (place: Option<usize>)
    requires
        from <= names.len(),
    ensures
        match place {
            Some(k) => from <= k < names.len() && names@[k as int]@ == text@ && forall|j: int|
                from <= j < k ==> names@[j]@ != text@,
            None => forall|j: int| from <= j < names.len() ==> names@[j]@ != text@,
        },
{
    let mut k: usize = from;
    while k < names.len()
        invariant
            from <= k <= names.len(),
            forall|j: int| from <= j < k ==> names@[j]@ != text@,
        decreases names.len() - k,
    {
        if names[k].eq(text) {
            return Some(k);
        }
        k += 1;
    }
    None
}

impl Clone for TagList {
    fn clone(&self) -> (copy: Self)
        ensures
            copy@ == self@,
    {
        proof {
            use_type_invariant(self);
        }
        let names = crate::action::copy_strings(&self.names);
        assert(texts(names@).len() == texts(self.names@).len());
        assert forall|i: int, j: int| 0 <= i < j < names@.len() implies names@[i]@ != names@[j]@ by {
            assert(texts(names@)[i] == texts(self.names@)[i]);
            assert(texts(names@)[j] == texts(self.names@)[j]);
        }
        TagList { names }
    }
}

impl TagList {
    /// No tag occurs twice.
    #[verifier::type_invariant]
    pub closed spec fn sound(self) -> bool {
        forall|i: int, j: int| 0 <= i < j < self.names@.len() ==> self.names@[i]@ != self.names@[j]@
    }

    /// The list of `names`: `None` exactly when one of them occurs twice.
    pub fn new(names: Vec<String>) -> (tags: Option<TagList>)
        ensures
            match tags {
                Some(t) => t@ == texts(names@) && texts(names@).no_duplicates(),
                None => !texts(names@).no_duplicates(),
            },
    {
        let ghost all = texts(names@);
        let mut i: usize = 0;
        while i < names.len()
            invariant
                i <= names.len(),
                all == texts(names@),
                forall|a: int, b: int| 0 <= a < b < names.len() && a < i ==> names@[a]@ != names@[b]@,
            decreases names.len() - i,
        {
            match find_from(&names, i + 1, &names[i]) {
                Some(k) => {
                    assert(all[i as int] == all[k as int]);
                    return None;
                },
                None => {},
            }
            i += 1;
        }
        assert forall|a: int, b: int| 0 <= a < all.len() && 0 <= b < all.len() && a != b implies all[a]
            != all[b] by {
            if a < b {
                assert(names@[a]@ != names@[b]@);
            } else {
                assert(names@[b]@ != names@[a]@);
            }
        }
        Some(TagList { names })
    }

    /// How many tags there are.
    pub fn len(&self) -> (n: usize)
        ensures
            n == self@.len(),
    {
        self.names.len()
    }

    /// The tag at place `i`: `None` exactly when there is no such place.
    pub fn get(&self, i: usize) -> (tag: Option<&str>)
        ensures
            match tag {
                Some(t) => i < self@.len() && t@ == self@[i as int],
                None => i >= self@.len(),
            },
    {
        if i < self.names.len() {
            Some(self.names[i].as_str())
        } else {
            None
        }
    }

    /// The place of `tag` in the list: `None` exactly when it is not one of the tags.
    pub fn position(&self, tag: &str) -> (place: Option<usize>)
        ensures
            match place {
                Some(k) => place_of(self@, tag@) == Some(k as int),
                None => place_of(self@, tag@) is None,
            },
            place matches Some(k) ==> k < self@.len() && self@[k as int] == tag@,
    {
        let wanted = String::from_str(tag);
        self.position_of(&wanted)
    }

    /// The place of `tag` in the list: `None` exactly when it is not one of the tags.
    pub fn position_of(&self, tag: &String) -> (place: Option<usize>)
        ensures
            match place {
                Some(k) => place_of(self@, tag@) == Some(k as int),
                None => place_of(self@, tag@) is None,
            },
            place matches Some(k) ==> k < self@.len() && self@[k as int] == tag@,
    {
        let found = find_from(&self.names, 0, tag);
        proof {
            let tags = self@;
            match found {
                Some(k) => {
                    assert(tags[k as int] == tag@);
                    let first = tags.index_of(tag@);
                    assert(0 <= first < tags.len() && tags[first] == tag@);
                    if first != k as int {
                        use_type_invariant(self);
                        assert(self.names@[first]@ == tags[first]);
                    }
                },
                None => {
                    if tags.contains(tag@) {
                        let j = choose|j: int| 0 <= j < tags.len() && tags[j] == tag@;
                        assert(self.names@[j]@ == tag@);
                    }
                },
            }
        }
        found
    }
}

/// No tag of a list occurs twice in it.
pub proof fn lemma_tags_distinct(tags: TagList)
    requires
        tags.sound(),
    ensures
        tags@.no_duplicates(),
{
    let all = tags@;
    assert forall|a: int, b: int| 0 <= a < all.len() && 0 <= b < all.len() && a != b implies all[a]
        != all[b] by {
        if a < b {
            assert(tags.names@[a]@ != tags.names@[b]@);
        } else {
            assert(tags.names@[b]@ != tags.names@[a]@);
        }
    }
}

} // verus!
