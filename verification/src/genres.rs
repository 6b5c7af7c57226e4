use vstd::prelude::*;
use crate::text::{contains_str, find_str, spec_contains_str, views_of};

verus! {

/// The global registry of genre names: a set of free-text strings,
/// kept in insertion order with no duplicates.
pub struct Genres {
    pub genres: Vec<String>,
}

impl View for Genres {
    type V = Seq<Seq<char>>;

    open spec fn view(&self) -> Seq<Seq<char>> {
        views_of(self.genres@)
    }
}

impl Genres {
    /// No two registered names read the same.
    pub open spec fn wf(self) -> bool {
        forall|i: int, j: int| 0 <= i < j < self@.len() ==> self@[i] != self@[j]
    }

    /// Whether `g` is registered.
    pub open spec fn has(self, g: Seq<char>) -> bool {
        spec_contains_str(self@, g)
    }

    /// An empty registry.
    pub fn new() -> (r: Genres)
        ensures
            r@ == Seq::<Seq<char>>::empty(),
            r.wf(),
    {
        Genres { genres: Vec::new() }
    }

    /// How many names are registered.
    pub fn len(&self) -> (r: usize)
        ensures
            r == self@.len(),
    {
        self.genres.len()
    }

    /// The name at position `i`.
    pub fn get(&self, i: usize) -> (r: &String)
        requires
            i < self@.len(),
        ensures
            r@ == self@[i as int],
    {
        proof {
            assert(self@[i as int] == self.genres@[i as int]@);
        }
        &self.genres[i]
    }

    /// Whether `g` is registered.
    pub fn contains(&self, g: &String) -> (r: bool)
        ensures
            r == self.has(g@),
    {
        contains_str(&self.genres, g)
    }

    /// Register `g`; reports whether the name was newly inserted
    /// (false when it was already present, which changes nothing).
    pub fn add(&mut self, g: String) -> (r: bool)
        requires
            old(self).wf(),
        ensures
            final(self).wf(),
            r == !old(self).has(g@),
            r ==> final(self)@ == old(self)@.push(g@),
            !r ==> final(self)@ == old(self)@,
            forall|x: Seq<char>| final(self).has(x) <==> old(self).has(x) || x == g@,
    {
        let present = contains_str(&self.genres, &g);
        if present {
            proof {
                assert(forall|x: Seq<char>| final(self).has(x) <==> old(self).has(x) || x == g@)
                    by {
                    assert(old(self).has(g@));
                }
            }
            false
        } else {
            let ghost gv = g@;
            self.genres.push(g);
            proof {
                assert(self@ =~= old(self)@.push(gv));
                assert forall|x: Seq<char>| final(self).has(x) <==> old(self).has(x) || x == gv
                    by {
                    if final(self).has(x) {
                        let i = choose|i: int| 0 <= i < self@.len() && self@[i] == x;
                        if i < old(self)@.len() {
                            assert(old(self)@[i] == x);
                        }
                    }
                    if old(self).has(x) {
                        let i = choose|i: int| 0 <= i < old(self)@.len() && old(self)@[i] == x;
                        assert(self@[i] == x);
                    }
                    if x == gv {
                        assert(self@[self@.len() - 1] == x);
                    }
                }
            }
            true
        }
    }

    /// A structurally equal copy of the registry.
    pub fn duplicate(&self) -> (r: Genres)
        ensures
            r@ == self@,
    {
        Genres { genres: crate::text::clone_strings(&self.genres) }
    }

    /// Unregister `g`; reports whether the name was found and removed.
    pub fn remove(&mut self, g: &String) -> (r: bool)
        requires
            old(self).wf(),
        ensures
            final(self).wf(),
            r == old(self).has(g@),
            r ==> final(self)@ == old(self)@.remove(old(self)@.index_of(g@)),
            !r ==> final(self)@ == old(self)@,
            forall|x: Seq<char>| final(self).has(x) <==> old(self).has(x) && x != g@,
    {
        let i = find_str(&self.genres, g);
        if i == self.genres.len() {
            proof {
                assert(!old(self).has(g@));
            }
            false
        } else {
            proof {
                assert(old(self)@[i as int] == old(self).genres@[i as int]@);
                assert(old(self).has(g@)) by {
                    assert(old(self)@[i as int] == g@);
                }
                assert(old(self)@.index_of(g@) == i as int) by {
                    assert forall|j: int| 0 <= j < i implies old(self)@[j] != g@ by {
                        assert(old(self)@[j] == old(self).genres@[j]@);
                    }
                    old(self)@.index_of_first_ensures(g@);
                    assert(old(self)@.contains(g@)) by {
                        assert(old(self)@[i as int] == g@);
                    }
                }
            }
            self.genres.remove(i);
            proof {
                assert(self@ =~= old(self)@.remove(i as int));
                assert forall|x: Seq<char>| final(self).has(x) <==> old(self).has(x) && x != g@
                    by {
                    if final(self).has(x) {
                        let k = choose|k: int| 0 <= k < self@.len() && self@[k] == x;
                        if k < i {
                            assert(old(self)@[k] == x);
                        } else {
                            assert(old(self)@[k + 1] == x);
                        }
                        assert(x != g@) by {
                            if k < i {
                                if old(self)@[k] == g@ {
                                    assert(old(self)@[i as int] == g@);
                                }
                            } else {
                                if old(self)@[k + 1] == g@ {
                                    assert(old(self)@[i as int] == g@);
                                }
                            }
                        }
                    }
                    if old(self).has(x) && x != g@ {
                        let k = choose|k: int| 0 <= k < old(self)@.len() && old(self)@[k] == x;
                        if k < i {
                            assert(self@[k] == x);
                        } else {
                            assert(k != i);
                            assert(self@[k - 1] == x);
                        }
                    }
                }
            }
            true
        }
    }
}

} // verus!
