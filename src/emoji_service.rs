use vstd::prelude::*;

use crate::host::Host;
use crate::note::EmojiSimple;

verus! {

/// Why looking up a custom emoji failed.
#[derive(Debug, Clone, Copy, PartialEq, Eq, Structural)]
pub enum EmojiServiceError {
    HttpRequestError,
    InvalidFormatResponse,
}

impl EmojiServiceError {
    pub fn message(&self) -> (r: String)
        ensures
            r@.len() > 0,
    {
        let r = match self {
            EmojiServiceError::HttpRequestError => "http request error".to_string(),
            EmojiServiceError::InvalidFormatResponse => "invalid format response".to_string(),
        };
        proof {
            reveal_strlit("http request error");
            reveal_strlit("invalid format response");
        }
        r
    }
}

pub ghost struct EmojiView {
    pub name: Seq<char>,
    pub url: Seq<char>,
}

impl View for EmojiSimple {
    type V = EmojiView;

    open spec fn view(&self) -> EmojiView {
        EmojiView { name: self.name@, url: self.url@ }
    }
}

impl EmojiSimple {
    pub fn copied(&self) -> (r: EmojiSimple)
        ensures
            r@ == self@,
    {
        EmojiSimple { name: self.name.clone(), url: self.url.clone() }
    }
}

/// Custom emojis already looked up, by server and emoji name.
pub struct EmojiService {
    cache: Vec<(Host, String, EmojiSimple)>,
}

spec fn cached_in(cache: Seq<(Host, String, EmojiSimple)>, key: (Seq<char>, Seq<char>)) -> bool {
    exists|i: int| 0 <= i < cache.len() && cache[i].0@ == key.0 && cache[i].1@ == key.1
}

impl View for EmojiService {
    type V = Map<(Seq<char>, Seq<char>), EmojiView>;

    closed spec fn view(&self) -> Map<(Seq<char>, Seq<char>), EmojiView> {
        Map::new(
            |key: (Seq<char>, Seq<char>)| cached_in(self.cache@, key),
            |key: (Seq<char>, Seq<char>)|
                self.cache@[choose|i: int|
                    0 <= i < self.cache@.len() && self.cache@[i].0@ == key.0 && self.cache@[i].1@
                        == key.1].2@,
        )
    }
}

impl EmojiService {
    pub closed spec fn wf(&self) -> bool {
        forall|i: int, j: int|
            0 <= i < j < self.cache@.len() ==> !(self.cache@[i].0@ == self.cache@[j].0@
                && self.cache@[i].1@ == self.cache@[j].1@)
    }

    pub fn new() -> (r: EmojiService)
        ensures
            r.wf(),
            r@ == Map::<(Seq<char>, Seq<char>), EmojiView>::empty(),
    {
        let r = EmojiService { cache: Vec::new() };
        assert(r@ =~= Map::<(Seq<char>, Seq<char>), EmojiView>::empty());
        r
    }

    fn index_of(&self, host: &Host, name: &String) -> (r: Option<usize>)
        ensures
            match r {
                Some(i) => i < self.cache@.len() && self.cache@[i as int].0@ == host@
                    && self.cache@[i as int].1@ == name@,
                None => !self@.contains_key((host@, name@)),
            },
    {
        let mut i: usize = 0;
        while i < self.cache.len()
            invariant
                i <= self.cache@.len(),
                forall|j: int|
                    0 <= j < i ==> !(self.cache@[j].0@ == host@ && self.cache@[j].1@ == name@),
            decreases self.cache@.len() - i,
        {
            if self.cache[i].0 == *host && self.cache[i].1 == *name {
                return Some(i);
            }
            i = i + 1;
        }
        None
    }

    /// The emoji `name` of `host`, if it was looked up before.
    pub fn cached(&self, host: &Host, name: &str) -> (r: Option<EmojiSimple>)
        requires
            self.wf(),
        ensures
            match r {
                Some(e) => self@.contains_key((host@, name@)) && e@ == self@[(host@, name@)],
                None => !self@.contains_key((host@, name@)),
            },
    {
        let name = name.to_string();
        match self.index_of(host, &name) {
            Some(i) => {
                proof {
                    let key = (host@, name@);
                    assert(cached_in(self.cache@, key));
                    let c = choose|c: int|
                        0 <= c < self.cache@.len() && self.cache@[c].0@ == key.0 && self.cache@[c].1@
                            == key.1;
                    assert(c == i);
                }
                Some(self.cache[i].2.copied())
            },
            None => None,
        }
    }

    /// Remembers the emoji `name` of `host`, unless it is already known.
    pub fn remember(&mut self, host: &Host, name: &str, emoji: EmojiSimple)
        requires
            old(self).wf(),
        ensures
            final(self).wf(),
            old(self)@.contains_key((host@, name@)) ==> final(self)@ == old(self)@,
            !old(self)@.contains_key((host@, name@)) ==> final(self)@ == old(self)@.insert(
                (host@, name@),
                emoji@,
            ),
    {
        let name = name.to_string();
        if self.index_of(host, &name).is_some() {
            return;
        }
        let ghost before = self.cache@;
        let ghost m0 = self@;
        let ghost key = (host@, name@);
        let ghost ev = emoji@;
        self.cache.push((host.clone(), name, emoji));
        proof {
            let after = self.cache@;
            assert(after[before.len() as int].0@ == key.0 && after[before.len() as int].1@ == key.1);
            assert forall|i: int, j: int| 0 <= i < j < after.len() implies !(after[i].0@ == after[j].0@
                && after[i].1@ == after[j].1@) by {
                assert(after[i] == before[i]);
                if j < before.len() {
                    assert(after[j] == before[j]);
                } else {
                    assert(!cached_in(before, key));
                }
            }
            let m = m0.insert(key, ev);
            assert forall|k: (Seq<char>, Seq<char>)| #[trigger] cached_in(after, k) == m.contains_key(k) by {
                if cached_in(before, k) {
                    let j = choose|j: int| 0 <= j < before.len() && before[j].0@ == k.0 && before[j].1@ == k.1;
                    assert(after[j] == before[j]);
                }
                if cached_in(after, k) {
                    let j = choose|j: int| 0 <= j < after.len() && after[j].0@ == k.0 && after[j].1@ == k.1;
                    if j < before.len() {
                        assert(after[j] == before[j]);
                    }
                }
            }
            assert forall|k: (Seq<char>, Seq<char>)| m.contains_key(k) implies self@[k] == m[k] by {
                let c = choose|c: int| 0 <= c < after.len() && after[c].0@ == k.0 && after[c].1@ == k.1;
                if k == key {
                    if c < before.len() {
                        assert(after[c] == before[c]);
                        assert(cached_in(before, key));
                    }
                } else {
                    let j = choose|j: int| 0 <= j < before.len() && before[j].0@ == k.0 && before[j].1@ == k.1;
                    assert(after[j] == before[j]);
                    if c != j {
                        if c < before.len() {
                            assert(after[c] == before[c]);
                        }
                    }
                }
            }
            assert(self@ =~= m);
        }
    }
}

} // verus!
