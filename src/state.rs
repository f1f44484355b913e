use vstd::prelude::*;
use crate::error::SyncError;
use crate::tag::{TagInfo, TagModel, contains_name, has_name, models, unique_names};
use crate::timestamp::{Timestamp, parsed_instant};

verus! {

/// The record of processed tags, in the order they were processed.
#[derive(Debug)]
pub struct State {
    tags: Vec<TagInfo>,
}

impl View for State {
    type V = Seq<TagModel>;

    closed spec fn view(&self) -> Seq<TagModel> {
        models(self.tags@)
    }
}

impl State {
    /// A record holds each name at most once, and each commit time in the
    /// range the record's text form can hold.
    pub open spec fn wf(&self) -> bool {
        valid_tags(self@)
    }

    /// The record of a first run: no tag processed yet.
    pub fn new() -> (r: State)
        ensures
            r@ == Seq::<TagModel>::empty(),
            r.wf(),
    {
        let r = State { tags: Vec::new() };
        assert(r@ =~= Seq::<TagModel>::empty());
        r
    }

    /// The processed tags, in order.
    pub fn tags(&self) -> (r: &Vec<TagInfo>)
        ensures
            models(r@) == self@,
    {
        &self.tags
    }

    /// Whether a tag of this name has been processed.
    pub fn knows(&self, name: &String) -> (r: bool)
        ensures
            r == has_name(self@, name@),
    {
        contains_name(&self.tags, name)
    }

    /// The entries that persist this record, one per tag, in order. Loading
    /// them gives this record back.
    pub fn save(&self) -> (r: Vec<TagEntry>)
        requires
            self.wf(),
        ensures
            entry_views(r@) == self@.map_values(|t: TagModel| entry_of(t)),
            load_result(Some(entry_views(r@))) == Ok::<Seq<TagModel>, SyncError>(self@),
    {
        let mut r: Vec<TagEntry> = Vec::new();
        let mut i: usize = 0;
        while i < self.tags.len()
            invariant
                i <= self.tags.len(),
                self.wf(),
                entry_views(r@) == self@.take(i as int).map_values(|t: TagModel| entry_of(t)),
                decode_entries(entry_views(r@)) == Some(self@.take(i as int)),
            decreases self.tags.len() - i,
        {
            let tag = &self.tags[i];
            assert(self@[i as int] == tag@);
            assert(tag.commit_time.wf());
            let e = TagEntry { name: tag.name.clone(), commit_time: tag.commit_time.to_text() };
            let ghost before = entry_views(r@);
            r.push(e);
            assert(entry_views(r@) =~= before.push(e@));
            assert(entry_views(r@).drop_last() =~= before);
            assert(self@.take(i + 1) =~= self@.take(i as int).push(tag@));
            assert(self@.take(i + 1).map_values(|t: TagModel| entry_of(t)) =~= self@.take(
                i as int,
            ).map_values(|t: TagModel| entry_of(t)).push(entry_of(tag@)));
            assert(!has_name(self@.take(i as int), tag@.name)) by {
                if has_name(self@.take(i as int), tag@.name) {
                    let j = choose|j: int|
                        0 <= j < i && #[trigger] self@.take(i as int)[j].name == tag@.name;
                    assert(self@[j].name == self@[i as int].name);
                }
            }
            i += 1;
        }
        assert(self@.take(i as int) =~= self@);
        r
    }

    /// Loads a record from its persisted entries; `None` stands for a record
    /// that was never persisted, which loads as an empty one. Fails with
    /// `StateCorrupt` where an entry's commit time is not RFC 3339 text or two
    /// entries share a name.
    pub fn load(content: Option<Vec<TagEntry>>) -> (r: Result<State, SyncError>)
        ensures
            match r {
                Ok(s) => s.wf() && load_result(
                    content_view(content),
                ) == Ok::<Seq<TagModel>, SyncError>(s@),
                Err(e) => load_result(content_view(content)) == Err::<
                    Seq<TagModel>,
                    SyncError,
                >(e),
            },
    {
        match content {
            None => Ok(State::new()),
            Some(es) => State::decode(&es),
        }
    }

    /// Decodes persisted entries, as `load` does where a record was persisted.
    fn decode(es: &Vec<TagEntry>) -> (r: Result<State, SyncError>)
        ensures
            match r {
                Ok(s) => s.wf() && decode_entries(entry_views(es@)) == Some(s@),
                Err(e) => e == SyncError::StateCorrupt && decode_entries(entry_views(es@)) is None,
            },
    {
        let ghost ev = entry_views(es@);
        let mut state = State::new();
        let mut i: usize = 0;
        while i < es.len()
            invariant
                i <= es.len(),
                ev == entry_views(es@),
                state.wf(),
                decode_entries(ev.take(i as int)) == Some(state@),
            decreases es.len() - i,
        {
            let e = &es[i];
            assert(ev[i as int] == e@);
            assert(ev.take(i + 1).drop_last() =~= ev.take(i as int));
            assert(ev.take(i + 1).last() == e@);
            match Timestamp::parse(e.commit_time.as_str()) {
                Some(t) => {
                    if state.knows(&e.name) {
                        proof {
                            lemma_decode_failed_stays(ev, i + 1);
                        }
                        return Err(SyncError::StateCorrupt);
                    }
                    state.append(TagInfo { name: e.name.clone(), commit_time: t });
                },
                None => {
                    proof {
                        lemma_decode_failed_stays(ev, i + 1);
                    }
                    return Err(SyncError::StateCorrupt);
                },
            }
            i += 1;
        }
        assert(ev.take(i as int) =~= ev);
        Ok(state)
    }

    /// Appends a tag not yet processed.
    pub fn append(&mut self, tag: TagInfo)
        requires
            old(self).wf(),
            !has_name(old(self)@, tag@.name),
            tag.commit_time.wf(),
        ensures
            final(self)@ == old(self)@.push(tag@),
            final(self).wf(),
    {
        let ghost before = self@;
        self.tags.push(tag);
        assert(self@ =~= before.push(tag@));
        assert(unique_names(self@)) by {
            assert forall|i: int, j: int|
                0 <= i < self@.len() && 0 <= j < self@.len() && i != j implies #[trigger] self@[i].name
                != #[trigger] self@[j].name by {
                if i == before.len() as int {
                    assert(before[j].name == self@[j].name);
                } else if j == before.len() as int {
                    assert(before[i].name == self@[i].name);
                }
            }
        }
    }
}

/// A tag as the persisted record writes it: its name and its commit time as
/// RFC 3339 text.
#[derive(Debug)]
pub struct TagEntry {
    pub name: String,
    pub commit_time: String,
}

impl View for TagEntry {
    type V = (Seq<char>, Seq<char>);

    open spec fn view(&self) -> (Seq<char>, Seq<char>) {
        (self.name@, self.commit_time@)
    }
}

/// The views of a vector of entries.
pub open spec fn entry_views(es: Seq<TagEntry>) -> Seq<(Seq<char>, Seq<char>)> {
    es.map_values(|e: TagEntry| e@)
}

/// The view of what was persisted, if anything.
pub open spec fn content_view(content: Option<Vec<TagEntry>>) -> Option<Seq<(Seq<char>, Seq<char>)>> {
    match content {
        Some(es) => Some(entry_views(es@)),
        None => None,
    }
}

/// How a tag is written in the persisted record.
pub open spec fn entry_of(t: TagModel) -> (Seq<char>, Seq<char>) {
    (t.name, t.commit_time.text())
}

/// Reads persisted entries in order: each must hold a commit time in RFC 3339
/// form and a name that no earlier entry holds. Nothing where one does not.
pub open spec fn decode_entries(es: Seq<(Seq<char>, Seq<char>)>) -> Option<Seq<TagModel>>
    decreases es.len(),
{
    if es.len() == 0 {
        Some(Seq::empty())
    } else {
        match decode_entries(es.drop_last()) {
            Some(ts) => {
                let e = es.last();
                match parsed_instant(e.1) {
                    Some(t) => if has_name(ts, e.0) {
                        None
                    } else {
                        Some(ts.push(TagModel { name: e.0, commit_time: t }))
                    },
                    None => None,
                }
            },
            None => None,
        }
    }
}

/// The record that loading gives: an empty one where nothing was persisted,
/// else the decoded entries, or `StateCorrupt`.
pub open spec fn load_result(content: Option<Seq<(Seq<char>, Seq<char>)>>) -> Result<
    Seq<TagModel>,
    SyncError,
> {
    match content {
        None => Ok(Seq::empty()),
        Some(es) => match decode_entries(es) {
            Some(ts) => Ok(ts),
            None => Err(SyncError::StateCorrupt),
        },
    }
}

proof fn lemma_decode_failed_stays(es: Seq<(Seq<char>, Seq<char>)>, i: int)
    requires
        0 <= i <= es.len(),
        decode_entries(es.take(i)) is None,
    ensures
        decode_entries(es) is None,
    decreases es.len() - i,
{
    if i == es.len() {
        assert(es.take(i) =~= es);
    } else {
        assert(es.take(i + 1).drop_last() =~= es.take(i));
        lemma_decode_failed_stays(es, i + 1);
    }
}

/// Names unique and commit times representable.
pub open spec fn valid_tags(tags: Seq<TagModel>) -> bool {
    &&& unique_names(tags)
    &&& forall|i: int| 0 <= i < tags.len() ==> (#[trigger] tags[i]).commit_time.wf()
}

} // verus!
