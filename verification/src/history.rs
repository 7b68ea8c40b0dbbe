//! The queries of earlier searches, oldest first, and a position for
//! walking through them.

use vstd::prelude::*;
use vstd::string::StringExecFns;
use std::collections::VecDeque;
use crate::filters::texts_of;
use crate::text::{string_of, to_chars, trim, trimmed};

verus! {

/// The most queries that are kept.
pub const MAX_HISTORY: usize = 100;

/// `s` without the texts equal to `q`.
pub open spec fn without_text(s: Seq<Seq<char>>, q: Seq<char>) -> Seq<Seq<char>>
    decreases s.len(),
{
    if s.len() == 0 {
        Seq::empty()
    } else if s.last() == q {
        without_text(s.drop_last(), q)
    } else {
        without_text(s.drop_last(), q).push(s.last())
    }
}

/// At most the last `MAX_HISTORY` of `s`.
pub open spec fn newest(s: Seq<Seq<char>>) -> Seq<Seq<char>> {
    if s.len() > MAX_HISTORY {
        s.skip(s.len() - MAX_HISTORY)
    } else {
        s
    }
}

/// The history after `query` was added: a query of white space alone
/// changes nothing; else the trimmed query becomes the newest, any
/// earlier copy of it goes, and the oldest go where there are too many.
pub open spec fn after_add(s: Seq<Seq<char>>, query: Seq<char>) -> Seq<Seq<char>> {
    let q = trimmed(query);
    if q.len() == 0 {
        s
    } else {
        newest(without_text(s, q).push(q))
    }
}

/// The text of a returned query.
pub open spec fn text_of(r: Option<String>) -> Option<Seq<char>> {
    match r {
        Some(q) => Some(q@),
        None => None,
    }
}

/// The query at a place of the walk through the history; the empty
/// query where the walk has ended.
pub open spec fn shown_query(texts: Seq<Seq<char>>, place: Option<usize>) -> Seq<char> {
    match place {
        Some(p) => texts[p as int],
        None => Seq::empty(),
    }
}

/// Whether a step to the older query moves the walk through `len`
/// queries: the first step needs a query to go to, a later one an older
/// query than the one shown.
pub open spec fn has_older(len: nat, place: Option<usize>) -> bool {
    match place {
        None => len > 0,
        Some(p) => p > 0,
    }
}

/// The place after a step to the older query: the first step goes to the
/// newest query, a later one goes one back, and where there is none the
/// place stays.
pub open spec fn older_place(len: nat, place: Option<usize>) -> Option<usize> {
    match place {
        None => if len > 0 {
            Some((len - 1) as usize)
        } else {
            None
        },
        Some(p) => if p > 0 {
            Some((p - 1) as usize)
        } else {
            place
        },
    }
}

/// The place after a step to the newer query: one on, and past the
/// newest the walk ends. Without a walk under way there is no place.
pub open spec fn newer_place(len: nat, place: Option<usize>) -> Option<usize> {
    match place {
        None => None,
        Some(p) => if p + 1 >= len {
            None
        } else {
            Some((p + 1) as usize)
        },
    }
}

/// The file that holds the history of the user `username`.
pub open spec fn history_path(username: Seq<char>) -> Seq<char> {
    "C:\\Users\\"@ + username + "\\.nothing\\history.json"@
}

pub fn get_history_path(username: &str) -> (r: String)
    ensures
        r@ == history_path(username@),
{
    let mut r = String::from_str("C:\\Users\\");
    r.append(username);
    r.append("\\.nothing\\history.json");
    r
}

/// The search history.
#[derive(Debug)]
pub struct SearchHistory {
    queries: VecDeque<String>,
    position: Option<usize>,
}

impl SearchHistory {
    #[verifier::type_invariant]
    spec fn in_range(self) -> bool {
        self.position matches Some(p) ==> p < self.queries@.len()
    }

    /// The queries, oldest first.
    pub closed spec fn texts(&self) -> Seq<Seq<char>> {
        texts_of(self.queries@)
    }

    /// The position of the walk; none when no walk is under way.
    pub closed spec fn place(&self) -> Option<usize> {
        self.position
    }

    /// An empty history.
    pub fn new() -> (r: Self)
        ensures
            r.texts() == Seq::<Seq<char>>::empty(),
            r.place() is None,
    {
        let queries: VecDeque<String> = VecDeque::new();
        assert(texts_of(queries@) =~= Seq::<Seq<char>>::empty());
        SearchHistory { queries, position: None }
    }

    /// A history that holds `queries`, oldest first.
    pub fn from_queries(queries: VecDeque<String>) -> (r: Self)
        ensures
            r.texts() == texts_of(queries@),
            r.place() is None,
    {
        SearchHistory { queries, position: None }
    }

    /// Adds a query as the newest, and ends the walk.
    pub fn add(&mut self, query: &str)
        ensures
            final(self).texts() == after_add(old(self).texts(), query@),
            trimmed(query@).len() > 0 ==> final(self).place() is None,
            trimmed(query@).len() == 0 ==> final(self).place() == old(self).place(),
    {
        proof {
            use_type_invariant(&*self);
        }
        let chars = to_chars(query);
        let stripped = trim(&chars);
        if stripped.len() == 0 {
            return ;
        }
        let text = string_of(&stripped);
        let ghost old_texts = self.texts();
        let mut kept: VecDeque<String> = VecDeque::new();
        let mut i: usize = 0;
        assert(texts_of(kept@) =~= Seq::<Seq<char>>::empty());
        assert(old_texts.take(0) =~= Seq::<Seq<char>>::empty());
        while i < self.queries.len()
            invariant
                old_texts == texts_of(self.queries@),
                i <= self.queries@.len(),
                texts_of(kept@) == without_text(old_texts.take(i as int), text@),
                kept@.len() <= i,
            decreases self.queries@.len() - i,
        {
            assert(old_texts.take(i + 1).drop_last() =~= old_texts.take(i as int));
            assert(old_texts.take(i + 1).last() == self.queries@[i as int]@);
            if !(self.queries[i] == text) {
                let ghost before = texts_of(kept@);
                kept.push_back(self.queries[i].clone());
                assert(texts_of(kept@) =~= before.push(self.queries@[i as int]@));
            }
            i += 1;
        }
        assert(old_texts.take(old_texts.len() as int) =~= old_texts);
        let ghost before = texts_of(kept@);
        kept.push_back(text);
        assert(texts_of(kept@) =~= before.push(text@));
        let ghost all = texts_of(kept@);
        let queries = if kept.len() > MAX_HISTORY {
            let from: usize = kept.len() - MAX_HISTORY;
            let mut last: VecDeque<String> = VecDeque::new();
            let mut j: usize = from;
            assert(texts_of(last@) =~= all.subrange(from as int, from as int));
            while j < kept.len()
                invariant
                    all == texts_of(kept@),
                    from <= j <= kept@.len(),
                    texts_of(last@) == all.subrange(from as int, j as int),
                decreases kept@.len() - j,
            {
                let ghost sofar = texts_of(last@);
                last.push_back(kept[j].clone());
                assert(texts_of(last@) =~= sofar.push(kept@[j as int]@));
                assert(all.subrange(from as int, j + 1) =~= all.subrange(
                    from as int,
                    j as int,
                ).push(all[j as int]));
                j += 1;
            }
            assert(all.subrange(from as int, all.len() as int) =~= all.skip(from as int));
            last
        } else {
            kept
        };
        *self = SearchHistory { queries, position: None };
    }

    /// Steps to the next older query and returns it. The first step goes
    /// to the newest. At the oldest, or with an empty history, nothing
    /// moves and nothing is returned.
    pub fn previous(&mut self, current_query: &str) -> (r: Option<String>)
        ensures
            final(self).texts() == old(self).texts(),
            r is Some ==> final(self).place() is Some && text_of(r) == Some(
                shown_query(old(self).texts(), final(self).place()),
            ),
            r is None ==> final(self).place() == old(self).place(),
            r is Some <==> has_older(old(self).texts().len(), old(self).place()),
            final(self).place() == older_place(old(self).texts().len(), old(self).place()),
            match old(self).place() {
                None => if old(self).texts().len() == 0 {
                    r is None && final(self).place() is None
                } else {
                    final(self).place() == Some((old(self).texts().len() - 1) as usize)
                        && text_of(r) == Some(old(self).texts().last())
                },
                Some(p) => if p == 0 {
                    r is None && final(self).place() == Some(0usize)
                } else {
                    final(self).place() == Some((p - 1) as usize) && text_of(r) == Some(
                        old(self).texts()[p - 1],
                    )
                },
            },
    {
        proof {
            use_type_invariant(&*self);
        }
        if self.queries.len() == 0 {
            return None;
        }
        let new_position: usize = match self.position {
            Some(pos) => {
                if pos > 0 {
                    pos - 1
                } else {
                    return None;
                }
            },
            None => self.queries.len() - 1,
        };
        let found = self.queries[new_position].clone();
        self.position = Some(new_position);
        Some(found)
    }

    /// Steps to the next newer query and returns it. Past the newest the
    /// walk ends and the empty query is returned. Without a walk under
    /// way nothing is returned.
    pub fn next(&mut self) -> (r: Option<String>)
        ensures
            final(self).texts() == old(self).texts(),
            r is Some ==> text_of(r) == Some(shown_query(old(self).texts(), final(self).place())),
            r is Some <==> old(self).place() is Some,
            final(self).place() == newer_place(old(self).texts().len(), old(self).place()),
            match old(self).place() {
                None => r is None && final(self).place() is None,
                Some(p) => if p + 1 >= old(self).texts().len() {
                    final(self).place() is None && text_of(r) == Some(Seq::<char>::empty())
                } else {
                    final(self).place() == Some((p + 1) as usize) && text_of(r) == Some(
                        old(self).texts()[p + 1],
                    )
                },
            },
    {
        proof {
            use_type_invariant(&*self);
        }
        let pos = match self.position {
            Some(pos) => pos,
            None => {
                return None;
            },
        };
        let count: usize = self.queries.len();
        let new_position: usize = pos + 1;
        if new_position >= count {
            self.position = None;
            Some(String::new())
        } else {
            let found = self.queries[new_position].clone();
            self.position = Some(new_position);
            Some(found)
        }
    }

    /// Ends the walk.
    pub fn reset_position(&mut self)
        ensures
            final(self).texts() == old(self).texts(),
            final(self).place() is None,
    {
        self.position = None;
    }

    /// The queries, oldest first.
    pub fn queries(&self) -> (r: &VecDeque<String>)
        ensures
            texts_of(r@) == self.texts(),
    {
        &self.queries
    }

    pub fn current_position(&self) -> (r: Option<usize>)
        ensures
            r == self.place(),
            r matches Some(p) ==> p < self.texts().len(),
    {
        proof {
            use_type_invariant(self);
        }
        self.position
    }

    /// Forgets all queries.
    pub fn clear(&mut self)
        ensures
            final(self).texts() == Seq::<Seq<char>>::empty(),
            final(self).place() is None,
    {
        *self = SearchHistory::new();
    }
}

} // verus!
