//! The traversal of a directory tree: a pre-order event stream with an
//! explicit close event after each folder's children.

use vstd::prelude::*;

use crate::directory::{
    dir_model, dsize_item, dsize_items, item_model, items_model, lemma_items_model_index,
    lemma_items_model_len, Directory, DirectoryItem, DirectoryV, DirItemV, Script, ScriptV,
    script_model,
};

verus! {

/// One event of the directory traversal.
pub enum DirectoryIterItem<'a> {
    StartOfDirectory(&'a Directory),
    Script(&'a Script),
    DirectoryEnd,
}

/// The model of one traversal event.
pub enum DirEventV {
    Start(DirectoryV),
    Script(ScriptV),
    End,
}

pub open spec fn dir_event_model(e: DirectoryIterItem) -> DirEventV {
    match e {
        DirectoryIterItem::StartOfDirectory(d) => DirEventV::Start(dir_model(*d)),
        DirectoryIterItem::Script(s) => DirEventV::Script(script_model(*s)),
        DirectoryIterItem::DirectoryEnd => DirEventV::End,
    }
}

pub open spec fn dir_events_model(s: Seq<DirectoryIterItem>) -> Seq<DirEventV> {
    s.map_values(|e: DirectoryIterItem| dir_event_model(e))
}

/// The event stream of an item list: scripts are single events, a folder
/// opens, streams its children, and closes.
pub open spec fn events_of_items(items: Seq<DirItemV>) -> Seq<DirEventV>
    decreases dsize_items(items), 1int,
{
    if items.len() == 0 {
        Seq::<DirEventV>::empty()
    } else {
        expand_item(items[0]) + events_of_items(items.skip(1))
    }
}

pub open spec fn expand_item(it: DirItemV) -> Seq<DirEventV>
    decreases dsize_item(it), 0int,
{
    match it {
        DirItemV::Script(s) => seq![DirEventV::Script(s)],
        DirItemV::Directory(d) => seq![DirEventV::Start(d)] + events_of_items(d.children) + seq![
            DirEventV::End,
        ],
    }
}

/// Appends the events of every item of the list.
pub fn push_dir_events<'a>(items: &'a Vec<DirectoryItem>, out: &mut Vec<DirectoryIterItem<'a>>)
    ensures
        dir_events_model(final(out)@) == dir_events_model(old(out)@) + events_of_items(
            items_model(items@),
        ),
    decreases dsize_items(items_model(items@)), 1int,
{
    let ghost iv = items_model(items@);
    let mut i: usize = 0;
    proof {
        lemma_items_model_len(items@);
        assert(iv.skip(0) =~= iv);
        assert(dir_events_model(out@) + events_of_items(iv) =~= dir_events_model(old(out)@)
            + events_of_items(iv));
    }
    while i < items.len()
        invariant
            0 <= i <= items@.len(),
            iv == items_model(items@),
            iv.len() == items@.len(),
            dir_events_model(out@) + events_of_items(iv.skip(i as int)) == dir_events_model(
                old(out)@,
            ) + events_of_items(iv),
        decreases items@.len() - i,
    {
        let ghost rest = iv.skip(i as int);
        proof {
            lemma_items_model_index(items@, i as int);
            crate::directory::lemma_dsize_items_index(iv, i as int);
            assert(rest[0] == iv[i as int]);
            assert(rest.skip(1) =~= iv.skip(i + 1));
            assert(events_of_items(rest) == expand_item(iv[i as int]) + events_of_items(
                iv.skip(i + 1),
            ));
        }
        let ghost before = dir_events_model(out@);
        let item = &items[i];
        match item {
            DirectoryItem::Script(s) => {
                out.push(DirectoryIterItem::Script(s));
                proof {
                    assert(dir_events_model(out@) =~= before + expand_item(iv[i as int]));
                }
            },
            DirectoryItem::Directory(d) => {
                proof {
                    assert(item_model(items@[i as int]) == DirItemV::Directory(dir_model(*d)));
                    assert(dsize_items(items_model(d.children@)) < dsize_item(iv[i as int]));
                }
                out.push(DirectoryIterItem::StartOfDirectory(d));
                let ghost mid1 = dir_events_model(out@);
                proof {
                    assert(mid1 =~= before.push(DirEventV::Start(dir_model(*d))));
                }
                push_dir_events(&d.children, out);
                let ghost mid2 = dir_events_model(out@);
                proof {
                    assert(mid2 == mid1 + events_of_items(items_model(d.children@)));
                }
                out.push(DirectoryIterItem::DirectoryEnd);
                proof {
                    assert(dir_events_model(out@) =~= mid2.push(DirEventV::End));
                    assert(dir_events_model(out@) =~= before + expand_item(iv[i as int]));
                }
            },
        }
        proof {
            assert(dir_events_model(out@) + events_of_items(iv.skip(i + 1)) =~= before + (
            expand_item(iv[i as int]) + events_of_items(iv.skip(i + 1))));
        }
        i = i + 1;
    }
    proof {
        assert(iv.skip(iv.len() as int).len() == 0);
        assert(events_of_items(iv.skip(iv.len() as int)) =~= Seq::<DirEventV>::empty());
        assert(dir_events_model(out@) + Seq::<DirEventV>::empty() =~= dir_events_model(out@));
    }
}

/// A single-pass, forward-only traversal of a directory tree.
pub struct DirectoryIterator<'a> {
    pub items: Vec<DirectoryIterItem<'a>>,
    pub pos: usize,
}

impl<'a> DirectoryIterator<'a> {
    /// The traversal of a directory's children.
    pub fn new(directory: &'a Directory) -> (r: DirectoryIterator<'a>)
        ensures
            dir_events_model(r.items@) == events_of_items(dir_model(*directory).children),
            r.pos == 0,
    {
        let mut items: Vec<DirectoryIterItem<'a>> = Vec::new();
        proof {
            assert(dir_events_model(items@) =~= Seq::<DirEventV>::empty());
        }
        push_dir_events(&directory.children, &mut items);
        proof {
            assert(Seq::<DirEventV>::empty() + events_of_items(
                items_model(directory.children@),
            ) =~= events_of_items(items_model(directory.children@)));
        }
        DirectoryIterator { items, pos: 0 }
    }

    /// The next event, until the stream is exhausted.
    pub fn next(&mut self) -> (r: Option<DirectoryIterItem<'a>>)
        ensures
            final(self).items@ == old(self).items@,
            old(self).pos < old(self).items@.len() ==> match r {
                Option::Some(it) => dir_event_model(it) == dir_events_model(old(self).items@)[old(
                    self,
                ).pos as int] && final(self).pos == old(self).pos + 1,
                Option::None => false,
            },
            old(self).pos >= old(self).items@.len() ==> r is None && final(self).pos == old(
                self,
            ).pos,
    {
        if self.pos < self.items.len() {
            let item = match &self.items[self.pos] {
                DirectoryIterItem::StartOfDirectory(d) => DirectoryIterItem::StartOfDirectory(*d),
                DirectoryIterItem::Script(s) => DirectoryIterItem::Script(*s),
                DirectoryIterItem::DirectoryEnd => DirectoryIterItem::DirectoryEnd,
            };
            self.pos = self.pos + 1;
            Option::Some(item)
        } else {
            Option::None
        }
    }
}

impl Directory {
    /// The traversal of this directory's whole tree.
    pub fn iter_flattened<'a>(&'a self) -> (r: DirectoryIterator<'a>)
        ensures
            dir_events_model(r.items@) == events_of_items(dir_model(*self).children),
            r.pos == 0,
    {
        DirectoryIterator::new(self)
    }

    /// The first tree item with the given stable key: a folder opening or
    /// a script, in traversal order.
    pub fn find_item_with_key<'a>(&'a self, key: &str) -> (r: Option<DirectoryIterItem<'a>>)
        ensures
            match r {
                Option::Some(it) => find_key_event(
                    events_of_items(dir_model(*self).children),
                    key@,
                ) == Option::Some(dir_event_model(it)),
                Option::None => find_key_event(events_of_items(dir_model(*self).children), key@)
                    is None,
            },
    {
        let walk = DirectoryIterator::new(self);
        let ghost evs = dir_events_model(walk.items@);
        let mut i: usize = 0;
        proof {
            assert(evs.skip(0) =~= evs);
        }
        while i < walk.items.len()
            invariant
                0 <= i <= walk.items@.len(),
                evs == dir_events_model(walk.items@),
                evs == events_of_items(dir_model(*self).children),
                evs.len() == walk.items@.len(),
                find_key_event(evs.skip(i as int), key@) == find_key_event(evs, key@),
            decreases walk.items@.len() - i,
        {
            proof {
                assert(evs.skip(i as int)[0] == evs[i as int]);
                assert(evs.skip(i as int).skip(1) =~= evs.skip(i + 1));
            }
            let hit: bool = match &walk.items[i] {
                DirectoryIterItem::StartOfDirectory(d) => crate::text::str_eq(d.key.as_str(), key),
                DirectoryIterItem::Script(s) => crate::text::str_eq(s.key.as_str(), key),
                DirectoryIterItem::DirectoryEnd => false,
            };
            if hit {
                let item = match &walk.items[i] {
                    DirectoryIterItem::StartOfDirectory(d) => DirectoryIterItem::StartOfDirectory(
                        *d,
                    ),
                    DirectoryIterItem::Script(s) => DirectoryIterItem::Script(*s),
                    DirectoryIterItem::DirectoryEnd => DirectoryIterItem::DirectoryEnd,
                };
                proof {
                    assert(evs[i as int] == dir_event_model(walk.items@[i as int]));
                    assert(dir_event_model(item) == evs[i as int]);
                    assert(find_key_event(evs.skip(i as int), key@) == Option::Some(
                        evs[i as int],
                    ));
                }
                return Option::Some(item);
            }
            i = i + 1;
        }
        proof {
            assert(evs.skip(evs.len() as int).len() == 0);
        }
        Option::None
    }
}

/// The first traversal event carrying the key: a folder opening or a
/// script whose key matches.
pub open spec fn find_key_event(evs: Seq<DirEventV>, key: Seq<char>) -> Option<DirEventV>
    decreases evs.len(),
{
    if evs.len() == 0 {
        Option::None
    } else {
        let hit = match evs[0] {
            DirEventV::Start(d) => d.key == key,
            DirEventV::Script(s) => s.key == key,
            DirEventV::End => false,
        };
        if hit {
            Option::Some(evs[0])
        } else {
            find_key_event(evs.skip(1), key)
        }
    }
}

} // verus!
