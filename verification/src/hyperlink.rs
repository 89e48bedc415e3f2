//! OSC 8 hyperlink storage with URL interning.
//!
//! Cells store a [`HyperlinkId`] instead of a URL, and the id is resolved back
//! to a URL when a row is sent to a client. The store only grows: URLs are
//! interned when the application emits them and dropped with the store.

use vstd::prelude::*;

use crate::cell::HyperlinkId;

verus! {

/// The index of `url` among the interned URLs, or their number.
pub open spec fn url_pos(v: Seq<Seq<char>>, url: Seq<char>) -> int
    decreases v.len(),
{
    if v.len() == 0 {
        0
    } else if v[0] == url {
        0
    } else {
        1 + url_pos(v.drop_first(), url)
    }
}

/// The URLs after interning `url`: unchanged if it is there, else with it
/// added last.
pub open spec fn interned(v: Seq<Seq<char>>, url: Seq<char>) -> Seq<Seq<char>> {
    if v.contains(url) {
        v
    } else {
        v.push(url)
    }
}

proof fn lemma_url_pos(v: Seq<Seq<char>>, url: Seq<char>, i: int)
    requires
        0 <= i <= v.len(),
        forall|j: int| 0 <= j < i ==> v[j] != url,
        i == v.len() || v[i] == url,
    ensures
        url_pos(v, url) == i,
    decreases i,
{
    if i > 0 {
        lemma_url_pos(v.drop_first(), url, i - 1);
    }
}

/// Interned URL storage for hyperlinks. The `i`-th URL interned has id `i + 1`.
pub struct HyperlinkStore {
    urls: Vec<String>,
}

impl HyperlinkStore {
    /// The interned URLs in order of interning.
    pub closed spec fn view(&self) -> Seq<Seq<char>> {
        Seq::new(self.urls@.len(), |i: int| self.urls@[i]@)
    }

    /// No URL is interned twice.
    pub closed spec fn wf(&self) -> bool {
        forall|i: int, j: int| 0 <= i < j < self.view().len() ==> self.view()[i] != self.view()[j]
    }

    /// An empty store.
    pub fn new() -> (s: HyperlinkStore)
        ensures
            s.wf(),
            s.view() == Seq::<Seq<char>>::empty(),
    {
        let s = HyperlinkStore { urls: Vec::new() };
        assert(s.view() =~= Seq::<Seq<char>>::empty());
        s
    }

    /// Intern a URL and return its id: the id it already has, or the next id.
    pub fn intern(&mut self, url: &str) -> (id: HyperlinkId)
        requires
            old(self).wf(),
            old(self).view().len() < u32::MAX,
        ensures
            final(self).wf(),
            old(self).view().contains(url@) ==> final(self).view() == old(self).view()
                && final(self).view()[id.value() - 1] == url@,
            !old(self).view().contains(url@) ==> final(self).view() == old(self).view().push(url@)
                && id.value() == final(self).view().len(),
            1 <= id.value() <= final(self).view().len(),
            id.value() == url_pos(old(self).view(), url@) + 1,
            final(self).view() == interned(old(self).view(), url@),
    {
        let owned = String::from_str(url);
        let mut i: usize = 0;
        while i < self.urls.len()
            invariant
                i <= self.urls@.len(),
                owned@ == url@,
                self.wf(),
                self.urls@.len() < u32::MAX,
                forall|k: int| 0 <= k < i ==> self.view()[k] != url@,
            decreases self.urls@.len() - i,
        {
            if self.urls[i] == owned {
                assert(self.view()[i as int] == url@);
                proof {
                    lemma_url_pos(self.view(), url@, i as int);
                    assert(self.view().contains(url@));
                }
                return HyperlinkId::from_nonzero((i + 1) as u32);
            }
            i = i + 1;
        }
        assert(!self.view().contains(url@));
        proof {
            lemma_url_pos(self.view(), url@, i as int);
        }
        let ghost before = self.view();
        self.urls.push(owned);
        assert(self.view() =~= before.push(url@));
        HyperlinkId::from_nonzero(self.urls.len() as u32)
    }

    /// The URL of a hyperlink id, if it was interned here.
    pub fn get(&self, id: HyperlinkId) -> (r: Option<&str>)
        ensures
            r is Some <==> 1 <= id.value() <= self.view().len(),
            r matches Some(u) ==> u@ == self.view()[id.value() - 1],
    {
        let v = id.get();
        if v as usize <= self.urls.len() {
            Some(self.urls[(v - 1) as usize].as_str())
        } else {
            None
        }
    }
}

impl Default for HyperlinkStore {
    fn default() -> (s: HyperlinkStore)
        ensures
            s.wf(),
            s.view() == Seq::<Seq<char>>::empty(),
    {
        HyperlinkStore::new()
    }
}

/// Interning a URL that is already there changes nothing and gives the id
/// it got first; the id reads back the URL; and the store only grows: every
/// id given before keeps its URL.
pub proof fn law_intern_is_stable(v: Seq<Seq<char>>, url: Seq<char>)
    ensures
        interned(interned(v, url), url) == interned(v, url),
        url_pos(interned(v, url), url) == url_pos(v, url),
        0 <= url_pos(v, url) < interned(v, url).len(),
        interned(v, url)[url_pos(v, url)] == url,
        interned(v, url).take(v.len() as int) == v,
{
    if v.contains(url) {
        let k = choose|k: int| 0 <= k < v.len() && v[k] == url;
        lemma_url_pos_first(v, url);
    } else {
        lemma_url_pos(v, url, v.len() as int);
        let w = v.push(url);
        assert forall|j: int| 0 <= j < v.len() implies w[j] != url by {
            assert(w[j] == v[j]);
        }
        lemma_url_pos(w, url, v.len() as int);
        assert(w[v.len() as int] == url);
        assert(w.contains(url));
    }
}

proof fn lemma_url_pos_first(v: Seq<Seq<char>>, url: Seq<char>)
    requires
        v.contains(url),
    ensures
        0 <= url_pos(v, url) < v.len(),
        v[url_pos(v, url)] == url,
    decreases v.len(),
{
    if v[0] != url {
        let k = choose|k: int| 0 <= k < v.len() && v[k] == url;
        assert(v.drop_first()[k - 1] == url);
        lemma_url_pos_first(v.drop_first(), url);
        assert(v[url_pos(v, url)] == v.drop_first()[url_pos(v.drop_first(), url)]);
    }
}

/// The URLs held after interning `urls` in order into an empty store.
pub open spec fn intern_all(urls: Seq<Seq<char>>) -> Seq<Seq<char>>
    decreases urls.len(),
{
    if urls.len() == 0 {
        Seq::empty()
    } else {
        interned(intern_all(urls.drop_last()), urls.last())
    }
}

/// `url_pos` is the first index holding `url`.
proof fn lemma_url_pos_min(v: Seq<Seq<char>>, url: Seq<char>)
    ensures
        0 <= url_pos(v, url) <= v.len(),
        forall|j: int| 0 <= j < url_pos(v, url) ==> v[j] != url,
    decreases v.len(),
{
    if v.len() > 0 && v[0] != url {
        lemma_url_pos_min(v.drop_first(), url);
        assert forall|j: int| 0 <= j < url_pos(v, url) implies v[j] != url by {
            if j > 0 {
                assert(v[j] == v.drop_first()[j - 1]);
            }
        }
    }
}

/// Interning another URL leaves the position of one already held alone.
proof fn lemma_url_pos_kept(v: Seq<Seq<char>>, url: Seq<char>, other: Seq<char>)
    requires
        v.contains(url),
    ensures
        url_pos(interned(v, other), url) == url_pos(v, url),
{
    lemma_url_pos_first(v, url);
    lemma_url_pos_min(v, url);
    let w = interned(v, other);
    let i = url_pos(v, url);
    assert forall|j: int| 0 <= j < i implies w[j] != url by {
        assert(w[j] == v[j]);
    }
    assert(w[i] == v[i]);
    lemma_url_pos(w, url, i);
}

/// Interning URLs one after another numbers the distinct ones 1, 2, … in
/// the order first seen: no URL is held twice, every URL interned is held
/// (its id, `url_pos + 1`, reads it back), nothing else is held, and the id a
/// URL gets when interned is the id it keeps. With `get` answering exactly
/// for ids `1..=n`, any other id finds nothing.
pub proof fn law_ids_number_urls(urls: Seq<Seq<char>>)
    ensures
        forall|i: int, j: int|
            0 <= i < j < intern_all(urls).len() ==> intern_all(urls)[i] != intern_all(urls)[j],
        intern_all(urls).len() <= urls.len(),
        forall|k: int|
            0 <= k < urls.len() ==> 0 <= #[trigger] url_pos(intern_all(urls), urls[k]) < intern_all(urls).len()
                && intern_all(urls)[url_pos(intern_all(urls), urls[k])] == urls[k]
                && url_pos(intern_all(urls.take(k)), urls[k]) == url_pos(intern_all(urls), urls[k]),
        forall|j: int|
            0 <= j < intern_all(urls).len() ==> exists|k: int| 0 <= k < urls.len() && urls[k] == #[trigger] intern_all(urls)[j],
    decreases urls.len(),
{
    if urls.len() > 0 {
        let prev = urls.drop_last();
        let u = urls.last();
        let n = urls.len() - 1;
        law_ids_number_urls(prev);
        let v0 = intern_all(prev);
        let v = intern_all(urls);
        assert(v == interned(v0, u));
        law_intern_is_stable(v0, u);
        if !v0.contains(u) {
            assert forall|i: int, j: int| 0 <= i < j < v.len() implies v[i] != v[j] by {
                if j == v0.len() {
                    assert(v[i] == v0[i]);
                    assert(v0.contains(v0[i]));
                }
            }
        }
        assert forall|k: int| 0 <= k < urls.len() implies 0 <= #[trigger] url_pos(v, urls[k]) < v.len()
            && v[url_pos(v, urls[k])] == urls[k]
            && url_pos(intern_all(urls.take(k)), urls[k]) == url_pos(v, urls[k]) by {
            if k < n {
                assert(urls[k] == prev[k]);
                assert(urls.take(k) == prev.take(k));
                assert(0 <= url_pos(v0, prev[k]) < v0.len());
                assert(v0.contains(prev[k]));
                lemma_url_pos_kept(v0, urls[k], u);
                lemma_url_pos_first(v, urls[k]);
            } else {
                assert(urls.take(k) == prev);
            }
        }
        assert forall|j: int| 0 <= j < v.len() implies exists|k: int| 0 <= k < urls.len() && urls[k] == #[trigger] v[j] by {
            if j < v0.len() {
                assert(v[j] == v0[j]);
                let k = choose|k: int| 0 <= k < prev.len() && prev[k] == v0[j];
                assert(urls[k] == prev[k]);
            } else {
                assert(urls[n] == v[j]);
            }
        }
    }
}

} // verus!

