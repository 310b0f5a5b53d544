//! What the controller remembers of hubs between sessions, by hub name:
//! the hash of the program each one was last given, and the configuration
//! it was last sent.
use vstd::prelude::*;
use crate::hub::HubConfiguration;

verus! {

/// Entries whose names are all different.
pub open spec fn names_distinct<V>(s: Seq<(String, V)>) -> bool {
    forall|i: int, j: int| 0 <= i < j < s.len() ==> s[i].0@ != s[j].0@
}

/// The entry for a name, if there is one.
pub open spec fn entry_index<V>(s: Seq<(String, V)>, name: Seq<char>) -> Option<int> {
    if exists|i: int| 0 <= i < s.len() && s[i].0@ == name {
        Some(choose|i: int| 0 <= i < s.len() && s[i].0@ == name)
    } else {
        None
    }
}

fn find_name<V>(s: &Vec<(String, V)>, name: &str) -> (r: Option<usize>)
    ensures
        match r {
            Some(i) => i < s@.len() && s@[i as int].0@ == name@,
            None => forall|i: int| 0 <= i < s@.len() ==> s@[i].0@ != name@,
        },
{
    let mut i: usize = 0;
    while i < s.len()
        invariant
            0 <= i <= s@.len(),
            forall|j: int| 0 <= j < i ==> s@[j].0@ != name@,
        decreases s@.len() - i,
    {
        if crate::text::str_equal(s[i].0.as_str(), name) {
            return Some(i);
        }
        i = i + 1;
    }
    None
}

/// A configuration with the same values.
fn copy_config(config: &HubConfiguration) -> (r: HubConfiguration)
    ensures
        r@ == config@,
{
    HubConfiguration { data: config.data.copy() }
}

pub struct PersistentHubState {
    pub program_hashes: Vec<(String, String)>,
    pub configs: Vec<(String, HubConfiguration)>,
}

impl PersistentHubState {
    pub open spec fn wf(&self) -> bool {
        names_distinct(self.program_hashes@) && names_distinct(self.configs@)
    }

    /// The program hashes by hub name.
    pub open spec fn hashes_view(&self) -> Map<Seq<char>, Seq<char>> {
        Map::new(
            |n: Seq<char>| entry_index(self.program_hashes@, n) is Some,
            |n: Seq<char>| self.program_hashes@[entry_index(self.program_hashes@, n)->0].1@,
        )
    }

    /// The configurations by hub name.
    pub open spec fn configs_view(&self) -> Map<Seq<char>, Map<u8, u32>> {
        Map::new(
            |n: Seq<char>| entry_index(self.configs@, n) is Some,
            |n: Seq<char>| self.configs@[entry_index(self.configs@, n)->0].1@,
        )
    }

    pub fn new() -> (r: Self)
        ensures
            r.wf(),
            r.hashes_view() == Map::<Seq<char>, Seq<char>>::empty(),
            r.configs_view() == Map::<Seq<char>, Map<u8, u32>>::empty(),
    {
        let r = PersistentHubState { program_hashes: Vec::new(), configs: Vec::new() };
        assert(r.hashes_view() =~= Map::<Seq<char>, Seq<char>>::empty());
        assert(r.configs_view() =~= Map::<Seq<char>, Map<u8, u32>>::empty());
        r
    }

    /// Remembers the configuration a hub was sent.
    pub fn sync_configured_hub(&mut self, hub_name: &str, config: &HubConfiguration)
        requires
            old(self).wf(),
        ensures
            final(self).wf(),
            final(self).configs_view() == old(self).configs_view().insert(hub_name@, config@),
            final(self).hashes_view() == old(self).hashes_view(),
    {
        let ghost before = self.configs@;
        match find_name(&self.configs, hub_name) {
            Some(i) => {
                let name = self.configs[i].0.clone();
                self.configs.set(i, (name, copy_config(config)));
                proof {
                    assert forall|n: Seq<char>| #[trigger] entry_index(self.configs@, n) == entry_index(before, n) by {
                        if exists|k: int| 0 <= k < before.len() && before[k].0@ == n {
                            let k = choose|k: int| 0 <= k < before.len() && before[k].0@ == n;
                            assert(self.configs@[k].0@ == n);
                        }
                        if exists|k: int| 0 <= k < self.configs@.len() && self.configs@[k].0@ == n {
                            let k = choose|k: int| 0 <= k < self.configs@.len() && self.configs@[k].0@ == n;
                            assert(before[k].0@ == n);
                        }
                    }
                    assert forall|n: Seq<char>| entry_index(self.configs@, n) is Some ==> (entry_index(self.configs@, n)->0 == i as int
                        <==> n == hub_name@) by {
                        if entry_index(self.configs@, n) is Some {
                            let k = entry_index(self.configs@, n)->0;
                            assert(self.configs@[k].0@ == n);
                        }
                    }
                    assert(self.configs_view() =~= old(self).configs_view().insert(hub_name@, config@));
                }
            },
            None => {
                self.configs.push((hub_name.to_owned(), copy_config(config)));
                proof {
                    let last = before.len() as int;
                    assert forall|n: Seq<char>| n != hub_name@ implies #[trigger] entry_index(self.configs@, n) == entry_index(before, n) by {
                        if exists|k: int| 0 <= k < before.len() && before[k].0@ == n {
                            let k = choose|k: int| 0 <= k < before.len() && before[k].0@ == n;
                            assert(self.configs@[k].0@ == n);
                        }
                        if exists|k: int| 0 <= k < self.configs@.len() && self.configs@[k].0@ == n {
                            let k = choose|k: int| 0 <= k < self.configs@.len() && self.configs@[k].0@ == n;
                            if k < last {
                                assert(before[k].0@ == n);
                            }
                        }
                    }
                    assert(self.configs@[last].0@ == hub_name@);
                    assert(entry_index(self.configs@, hub_name@) == Some(last)) by {
                        let k = choose|k: int| 0 <= k < self.configs@.len() && self.configs@[k].0@ == hub_name@;
                        if k < last {
                            assert(before[k].0@ == hub_name@);
                        }
                    }
                    assert(self.configs_view() =~= old(self).configs_view().insert(hub_name@, config@));
                }
            },
        }
    }

    /// Whether a hub was last sent exactly this configuration.
    pub fn config_matches(&self, hub_name: &str, config: &HubConfiguration) -> (r: bool)
        requires
            self.wf(),
        ensures
            r == (self.configs_view().contains_key(hub_name@) && self.configs_view()[hub_name@] == config@),
    {
        match find_name(&self.configs, hub_name) {
            Some(i) => {
                proof {
                    let k = entry_index(self.configs@, hub_name@)->0;
                    assert(self.configs@[k].0@ == hub_name@);
                }
                self.configs[i].1.same_values(config)
            },
            None => false,
        }
    }

    /// Whether the named hub is known to hold the program with this hash.
    pub fn is_marked_downloaded(&self, hub_name: &Option<String>, program_hash: &String) -> (r: bool)
        requires
            self.wf(),
        ensures
            r == match hub_name {
                Some(name) => self.hashes_view().contains_key(name@) && self.hashes_view()[name@] == program_hash@,
                None => false,
            },
    {
        match hub_name {
            Some(name) => match find_name(&self.program_hashes, name.as_str()) {
                Some(i) => {
                    proof {
                        let k = entry_index(self.program_hashes@, name@)->0;
                        assert(self.program_hashes@[k].0@ == name@);
                    }
                    self.program_hashes[i].1 == *program_hash
                },
                None => false,
            },
            None => false,
        }
    }

    /// Remembers that the named hub holds the program with this hash.
    pub fn mark_downloaded(&mut self, hub_name: &Option<String>, program_hash: &String)
        requires
            old(self).wf(),
        ensures
            final(self).wf(),
            final(self).hashes_view() == match hub_name {
                Some(name) => old(self).hashes_view().insert(name@, program_hash@),
                None => old(self).hashes_view(),
            },
            final(self).configs_view() == old(self).configs_view(),
    {
        let name = match hub_name {
            Some(name) => name,
            None => return,
        };
        let ghost before = self.program_hashes@;
        match find_name(&self.program_hashes, name.as_str()) {
            Some(i) => {
                let key = self.program_hashes[i].0.clone();
                self.program_hashes.set(i, (key, program_hash.clone()));
                proof {
                    assert forall|n: Seq<char>| #[trigger] entry_index(self.program_hashes@, n) == entry_index(before, n) by {
                        if exists|k: int| 0 <= k < before.len() && before[k].0@ == n {
                            let k = choose|k: int| 0 <= k < before.len() && before[k].0@ == n;
                            assert(self.program_hashes@[k].0@ == n);
                        }
                        if exists|k: int| 0 <= k < self.program_hashes@.len() && self.program_hashes@[k].0@ == n {
                            let k = choose|k: int| 0 <= k < self.program_hashes@.len() && self.program_hashes@[k].0@ == n;
                            assert(before[k].0@ == n);
                        }
                    }
                    assert forall|n: Seq<char>| entry_index(self.program_hashes@, n) is Some ==> (entry_index(self.program_hashes@, n)->0
                        == i as int <==> n == name@) by {
                        if entry_index(self.program_hashes@, n) is Some {
                            let k = entry_index(self.program_hashes@, n)->0;
                            assert(self.program_hashes@[k].0@ == n);
                        }
                    }
                    assert(self.hashes_view() =~= old(self).hashes_view().insert(name@, program_hash@));
                }
            },
            None => {
                self.program_hashes.push((name.clone(), program_hash.clone()));
                proof {
                    let last = before.len() as int;
                    assert forall|n: Seq<char>| n != name@ implies #[trigger] entry_index(self.program_hashes@, n) == entry_index(before, n) by {
                        if exists|k: int| 0 <= k < before.len() && before[k].0@ == n {
                            let k = choose|k: int| 0 <= k < before.len() && before[k].0@ == n;
                            assert(self.program_hashes@[k].0@ == n);
                        }
                        if exists|k: int| 0 <= k < self.program_hashes@.len() && self.program_hashes@[k].0@ == n {
                            let k = choose|k: int| 0 <= k < self.program_hashes@.len() && self.program_hashes@[k].0@ == n;
                            if k < last {
                                assert(before[k].0@ == n);
                            }
                        }
                    }
                    assert(self.program_hashes@[last].0@ == name@);
                    assert(entry_index(self.program_hashes@, name@) == Some(last)) by {
                        let k = choose|k: int| 0 <= k < self.program_hashes@.len() && self.program_hashes@[k].0@ == name@;
                        if k < last {
                            assert(before[k].0@ == name@);
                        }
                    }
                    assert(self.hashes_view() =~= old(self).hashes_view().insert(name@, program_hash@));
                }
            },
        }
    }
}

} // verus!
