use vstd::prelude::*;
use crate::timestamp::Timestamp;

verus! {

/// One tag of the source repository: its name, which identifies it, and the
/// time of the commit it points at.
#[derive(Debug)]
pub struct TagInfo {
    pub name: String,
    pub commit_time: Timestamp,
}

/// The mathematical value of a [`TagInfo`].
pub struct TagModel {
    pub name: Seq<char>,
    pub commit_time: Timestamp,
}

impl View for TagInfo {
    type V = TagModel;

    open spec fn view(&self) -> TagModel {
        TagModel { name: self.name@, commit_time: self.commit_time }
    }
}

impl TagInfo {
    pub fn new(name: String, commit_time: Timestamp) -> (r: TagInfo)
        ensures
            r@ == (TagModel { name: name@, commit_time }),
    {
        TagInfo { name, commit_time }
    }
}

impl Clone for TagInfo {
    fn clone(&self) -> (r: TagInfo)
        ensures
            r@ == self@,
    {
        TagInfo { name: self.name.clone(), commit_time: self.commit_time }
    }
}

/// The names of a sequence of tags, in order.
pub open spec fn names(tags: Seq<TagModel>) -> Seq<Seq<char>> {
    tags.map_values(|t: TagModel| t.name)
}

/// Whether some tag of the sequence has the given name.
pub open spec fn has_name(tags: Seq<TagModel>, name: Seq<char>) -> bool {
    exists|i: int| 0 <= i < tags.len() && #[trigger] tags[i].name == name
}

/// No two tags of the sequence share a name.
pub open spec fn unique_names(tags: Seq<TagModel>) -> bool {
    forall|i: int, j: int|
        0 <= i < tags.len() && 0 <= j < tags.len() && i != j ==> #[trigger] tags[i].name
            != #[trigger] tags[j].name
}

/// The models of a vector of tags.
pub open spec fn models(tags: Seq<TagInfo>) -> Seq<TagModel> {
    tags.map_values(|t: TagInfo| t@)
}

/// Whether a tag of the vector has the given name.
pub fn contains_name(tags: &Vec<TagInfo>, name: &String) -> (r: bool)
    ensures
        r == has_name(models(tags@), name@),
{
    let mut i: usize = 0;
    while i < tags.len()
        invariant
            i <= tags.len(),
            forall|j: int| 0 <= j < i ==> tags@[j].name@ != name@,
        decreases tags.len() - i,
    {
        if tags[i].name == *name {
            assert(models(tags@)[i as int].name == name@);
            return true;
        }
        i += 1;
    }
    assert forall|j: int| 0 <= j < models(tags@).len() implies models(tags@)[j].name != name@ by {
        assert(models(tags@)[j] == tags@[j]@);
    }
    false
}

} // verus!
