//! State of the variable browser: the search text, the variables it
//! matches, and the paths that are checked for sampling.
use vstd::prelude::*;
use crate::elf::parser::{ElfContext, ElfVariable};
use crate::text::{contains_seq, str_contains, str_eq};

verus! {

/// Names the text that `str::to_lowercase` makes of a string.
pub uninterp spec fn lowercase(s: Seq<char>) -> Seq<char>;

/// `str::to_lowercase`. Its result is named by `lowercase` of the text;
/// nothing else is stated of the Unicode case mapping.
#[verifier::external_body]
fn to_lowercase(s: &str) -> (r: String)
    ensures
        r@ == lowercase(s@),
{
    s.to_lowercase()
}

/// Whether a variable matches the search text: every variable matches an
/// empty search; otherwise its name or path, in lower case, contains the
/// search text in lower case.
pub open spec fn search_matches(search: Seq<char>, v: ElfVariable) -> bool {
    search.len() == 0 || contains_seq(lowercase(v.name@), lowercase(search)) || contains_seq(
        lowercase(v.path@),
        lowercase(search),
    )
}

/// The indices, in order, of the first `k` variables that match `search`.
pub open spec fn matching_indices(vars: Seq<ElfVariable>, search: Seq<char>, k: nat) -> Seq<usize>
    decreases k,
{
    if k == 0 {
        Seq::empty()
    } else {
        matching_indices(vars, search, (k - 1) as nat) + if search_matches(search, vars[k - 1]) {
            seq![(k - 1) as usize]
        } else {
            Seq::empty()
        }
    }
}

/// The paths of a list of strings, as a set.
pub open spec fn path_set(v: Seq<String>) -> Set<Seq<char>> {
    Set::new(|p: Seq<char>| exists|i: int| 0 <= i < v.len() && (#[trigger] v[i])@ == p)
}

/// No path occurs twice.
pub open spec fn distinct_paths(v: Seq<String>) -> bool {
    forall|i: int, j: int| 0 <= i < j < v.len() ==> (#[trigger] v[i])@ != (#[trigger] v[j])@
}

/// The variable browser: search text, its cached matches, and the checked
/// paths.
pub struct VariableBrowser {
    /// The search text.
    pub search_text: String,
    /// The checked variable paths, each once.
    pub checked_paths: Vec<String>,
    cached_search: String,
    cached_filtered: Vec<usize>,
    cached_elf_path: String,
}

impl VariableBrowser {
    /// No path is listed twice.
    pub closed spec fn wf(&self) -> bool {
        distinct_paths(self.checked_paths@)
    }

    /// The checked paths.
    pub closed spec fn checked_set(&self) -> Set<Seq<char>> {
        path_set(self.checked_paths@)
    }

    /// The search text.
    pub closed spec fn search(&self) -> Seq<char> {
        self.search_text@
    }

    /// The checked paths, in the order they were checked.
    pub closed spec fn checked_list(&self) -> Seq<String> {
        self.checked_paths@
    }

    /// The search text the cached matches were computed for.
    pub closed spec fn cached_search_text(&self) -> Seq<char> {
        self.cached_search@
    }

    /// The image path the cached matches were computed for.
    pub closed spec fn cached_image_path(&self) -> Seq<char> {
        self.cached_elf_path@
    }

    /// The cached matches.
    pub closed spec fn cached_matches(&self) -> Seq<usize> {
        self.cached_filtered@
    }

    /// A browser with no search text, nothing checked and nothing cached.
    pub fn new() -> (b: Self)
        ensures
            b.wf(),
            b.search().len() == 0,
            b.checked_set().is_empty(),
            b.checked_list().len() == 0,
            b.cached_search_text().len() == 0,
            b.cached_image_path().len() == 0,
            b.cached_matches().len() == 0,
    {
        let b = VariableBrowser {
            search_text: String::new(),
            checked_paths: Vec::new(),
            cached_search: String::new(),
            cached_filtered: Vec::new(),
            cached_elf_path: String::new(),
        };
        assert(b.checked_set() =~= Set::<Seq<char>>::empty());
        b
    }

    /// The checked paths.
    pub fn checked(&self) -> (c: &Vec<String>)
        ensures
            c@ == self.checked_list(),
    {
        &self.checked_paths
    }

    /// Unchecks every path.
    pub fn clear(&mut self)
        ensures
            final(self).wf(),
            final(self).checked_list().len() == 0,
            final(self).checked_set().is_empty(),
            final(self).search() == old(self).search(),
            final(self).cached_search_text() == old(self).cached_search_text(),
            final(self).cached_image_path() == old(self).cached_image_path(),
            final(self).cached_matches() == old(self).cached_matches(),
    {
        self.checked_paths = Vec::new();
        assert(self.checked_set() =~= Set::<Seq<char>>::empty());
    }

    /// Whether `path` is checked.
    pub fn is_checked(&self, path: &str) -> (b: bool)
        ensures
            b == self.checked_set().contains(path@),
    {
        let mut i: usize = 0;
        while i < self.checked_paths.len()
            invariant
                i <= self.checked_paths@.len(),
                forall|j: int| 0 <= j < i ==> (#[trigger] self.checked_paths@[j])@ != path@,
            decreases self.checked_paths@.len() - i,
        {
            if str_eq(self.checked_paths[i].as_str(), path) {
                return true;
            }
            i = i + 1;
        }
        false
    }

    /// Checks or unchecks `path`, and gives back the change: the path and
    /// whether it is now checked.
    pub fn set_checked(&mut self, path: &String, on: bool) -> (change: (String, bool))
        requires
            old(self).wf(),
        ensures
            final(self).wf(),
            change.0@ == path@,
            change.1 == on,
            final(self).checked_set() == if on {
                old(self).checked_set().insert(path@)
            } else {
                old(self).checked_set().remove(path@)
            },
            final(self).search() == old(self).search(),
            final(self).cached_search_text() == old(self).cached_search_text(),
            final(self).cached_image_path() == old(self).cached_image_path(),
            final(self).cached_matches() == old(self).cached_matches(),
    {
        let ghost before = self.checked_paths@;
        let mut kept: Vec<String> = Vec::new();
        let mut i: usize = 0;
        while i < self.checked_paths.len()
            invariant
                before == self.checked_paths@,
                distinct_paths(before),
                i <= before.len(),
                distinct_paths(kept@),
                forall|j: int| 0 <= j < kept@.len() ==> (#[trigger] kept@[j])@ != path@,
                path_set(kept@) == path_set(before.take(i as int)).remove(path@),
            decreases before.len() - i,
        {
            let p = &self.checked_paths[i];
            let ghost t0 = before.take(i as int);
            let ghost t1 = before.take(i + 1);
            assert(t1 =~= t0.push(before[i as int]));
            if !str_eq(p.as_str(), path.as_str()) {
                let ghost k0 = kept@;
                kept.push(p.clone());
                proof {
                    assert forall|a: int, b: int| 0 <= a < b < kept@.len() implies (
                    #[trigger] kept@[a])@ != (#[trigger] kept@[b])@ by {
                        if b == kept@.len() - 1 {
                            assert(k0[a]@ != before[i as int]@) by {
                                let w = choose|w: int| 0 <= w < t0.len() && (#[trigger] t0[w])@ == k0[a]@;
                                assert(path_set(k0).contains(k0[a]@));
                                assert(path_set(t0).contains(k0[a]@));
                                assert(t0[w] == before[w]);
                            }
                        } else {
                            assert(kept@[a] == k0[a] && kept@[b] == k0[b]);
                        }
                    }
                    assert(path_set(kept@) =~= path_set(t1).remove(path@)) by {
                        assert forall|q: Seq<char>| path_set(t1).remove(path@).contains(q) implies path_set(kept@).contains(q) by {
                            let w = choose|w: int| 0 <= w < t1.len() && (#[trigger] t1[w])@ == q;
                            if w < t0.len() {
                                assert(t0[w] == t1[w]);
                                assert(path_set(t0).contains(q));
                                assert(path_set(k0).contains(q));
                                let w2 = choose|w2: int| 0 <= w2 < k0.len() && (#[trigger] k0[w2])@ == q;
                                assert(kept@[w2] == k0[w2]);
                            } else {
                                assert(kept@[k0.len() as int]@ == q);
                            }
                        }
                        assert forall|q: Seq<char>| path_set(kept@).contains(q) implies path_set(t1).remove(path@).contains(q) by {
                            let w = choose|w: int| 0 <= w < kept@.len() && (#[trigger] kept@[w])@ == q;
                            if w < k0.len() {
                                assert(kept@[w] == k0[w]);
                                assert(path_set(k0).contains(q));
                                assert(path_set(t0).contains(q));
                                let w2 = choose|w2: int| 0 <= w2 < t0.len() && (#[trigger] t0[w2])@ == q;
                                assert(t1[w2] == t0[w2]);
                            } else {
                                assert(t1[i as int]@ == q);
                            }
                        }
                    }
                }
            } else {
                proof {
                    assert(path_set(kept@) =~= path_set(t1).remove(path@)) by {
                        assert forall|q: Seq<char>| path_set(t1).remove(path@).contains(q) implies path_set(kept@).contains(q) by {
                            let w = choose|w: int| 0 <= w < t1.len() && (#[trigger] t1[w])@ == q;
                            assert(t0[w] == t1[w]);
                            assert(path_set(t0).contains(q));
                        }
                        assert forall|q: Seq<char>| path_set(kept@).contains(q) implies path_set(t1).remove(path@).contains(q) by {
                            assert(path_set(t0).remove(path@).contains(q));
                            let w2 = choose|w2: int| 0 <= w2 < t0.len() && (#[trigger] t0[w2])@ == q;
                            assert(t1[w2] == t0[w2]);
                        }
                    }
                }
            }
            i = i + 1;
        }
        assert(before.take(before.len() as int) =~= before);
        if on {
            let ghost k0 = kept@;
            kept.push(path.clone());
            proof {
                assert forall|a: int, b: int| 0 <= a < b < kept@.len() implies (
                #[trigger] kept@[a])@ != (#[trigger] kept@[b])@ by {
                    if b == kept@.len() - 1 {
                        assert(kept@[a] == k0[a]);
                    } else {
                        assert(kept@[a] == k0[a] && kept@[b] == k0[b]);
                    }
                }
                assert(path_set(kept@) =~= path_set(before).insert(path@)) by {
                    assert forall|q: Seq<char>| path_set(before).insert(path@).contains(q) implies path_set(kept@).contains(q) by {
                        if q == path@ {
                            assert(kept@[k0.len() as int]@ == q);
                        } else {
                            assert(path_set(k0).contains(q));
                            let w2 = choose|w2: int| 0 <= w2 < k0.len() && (#[trigger] k0[w2])@ == q;
                            assert(kept@[w2] == k0[w2]);
                        }
                    }
                    assert forall|q: Seq<char>| path_set(kept@).contains(q) implies path_set(before).insert(path@).contains(q) by {
                        let w = choose|w: int| 0 <= w < kept@.len() && (#[trigger] kept@[w])@ == q;
                        if w < k0.len() {
                            assert(kept@[w] == k0[w]);
                            assert(path_set(k0).contains(q));
                        }
                    }
                }
            }
        } else {
            proof {
                assert(path_set(kept@) =~= path_set(before).remove(path@));
            }
        }
        self.checked_paths = kept;
        (path.clone(), on)
    }

    /// Brings the cached matches up to date with the search text and the
    /// loaded image: they are computed again when either differs from the
    /// one they were computed for, and kept otherwise.
    pub fn refresh(&mut self, ctx: &ElfContext)
        ensures
            final(self).search() == old(self).search(),
            final(self).checked_list() == old(self).checked_list(),
            if old(self).search() != old(self).cached_search_text() || ctx.file_path@
                != old(self).cached_image_path() {
                &&& final(self).cached_search_text() == old(self).search()
                &&& final(self).cached_image_path() == ctx.file_path@
                &&& final(self).cached_matches() == matching_indices(
                    ctx.variables@,
                    old(self).search(),
                    ctx.variables@.len(),
                )
            } else {
                &&& final(self).cached_search_text() == old(self).cached_search_text()
                &&& final(self).cached_image_path() == old(self).cached_image_path()
                &&& final(self).cached_matches() == old(self).cached_matches()
            },
    {
        let need = !str_eq(self.search_text.as_str(), self.cached_search.as_str()) || !str_eq(
            ctx.file_path.as_str(),
            self.cached_elf_path.as_str(),
        );
        if need {
            self.cached_search = self.search_text.clone();
            self.cached_elf_path = ctx.file_path.clone();
            let lower = to_lowercase(self.search_text.as_str());
            let empty = self.search_text.unicode_len() == 0;
            let mut found: Vec<usize> = Vec::new();
            let mut i: usize = 0;
            while i < ctx.variables.len()
                invariant
                    i <= ctx.variables@.len(),
                    lower@ == lowercase(self.search_text@),
                    empty == (self.search_text@.len() == 0),
                    found@ == matching_indices(ctx.variables@, self.search_text@, i as nat),
                decreases ctx.variables@.len() - i,
            {
                let v = &ctx.variables[i];
                let hit = if empty {
                    true
                } else {
                    let name = to_lowercase(v.name.as_str());
                    let path = to_lowercase(v.path.as_str());
                    str_contains(name.as_str(), lower.as_str()) || str_contains(
                        path.as_str(),
                        lower.as_str(),
                    )
                };
                if hit {
                    found.push(i);
                }
                i = i + 1;
                assert(found@ =~= matching_indices(ctx.variables@, self.search_text@, i as nat));
            }
            self.cached_filtered = found;
        }
    }

    /// The indices of the variables that the cached search matched.
    pub fn filtered(&self) -> (f: &Vec<usize>)
        ensures
            f@ == self.cached_matches(),
    {
        &self.cached_filtered
    }
}

} // verus!
