//! Descriptor registry: named machine-group descriptors and the global
//! duration budget, collected before a run starts.
//!
//! A descriptor names an instance shape, a boot image, and a desired
//! count. Registering a name that is already present replaces that
//! entry in place (last write wins), so the registry never holds two
//! entries for one name.

use vstd::prelude::*;

use crate::error::Error;

verus! {

/// What one machine of a group looks like: the instance shape and the
/// boot image to launch it from. The post-boot setup routine is held by
/// the unverified shell, keyed by the group's name.
pub struct MachineSetup {
    pub instance_type: String,
    pub ami: String,
}

impl MachineSetup {
    pub fn new(instance_type: &str, ami: &str) -> (r: Self)
        ensures
            r.instance_type@ == instance_type@,
            r.ami@ == ami@,
    {
        MachineSetup { instance_type: instance_type.to_owned(), ami: ami.to_owned() }
    }
}

/// The mathematical image of one registered group.
pub struct DescEntry {
    pub name: Seq<char>,
    pub instance_type: Seq<char>,
    pub ami: Seq<char>,
    pub count: u32,
}

/// The mathematical image of one stored descriptor triple.
pub open spec fn desc_entry(d: (String, MachineSetup, u32)) -> DescEntry {
    DescEntry { name: d.0@, instance_type: d.1.instance_type@, ami: d.1.ami@, count: d.2 }
}

/// No two entries bear the same name.
pub open spec fn unique_names(s: Seq<DescEntry>) -> bool {
    forall|i: int, j: int| 0 <= i < j < s.len() ==> s[i].name != s[j].name
}

/// Index of the first entry named `name`, or -1 if none is.
pub open spec fn find_name(s: Seq<DescEntry>, name: Seq<char>) -> int
    decreases s.len(),
{
    if s.len() == 0 {
        -1
    } else if s[0].name == name {
        0
    } else {
        let r = find_name(s.drop_first(), name);
        if r < 0 {
            -1
        } else {
            r + 1
        }
    }
}

/// How many entries bear `name`.
pub open spec fn count_name(s: Seq<DescEntry>, name: Seq<char>) -> nat
    decreases s.len(),
{
    if s.len() == 0 {
        0
    } else {
        count_name(s.drop_last(), name) + if s.last().name == name {
            1nat
        } else {
            0nat
        }
    }
}

/// What registering `e` does to the registry's contents: replace the
/// entry bearing its name in place, or append it if the name is new.
pub open spec fn register_desc(s: Seq<DescEntry>, e: DescEntry) -> Seq<DescEntry> {
    let i = find_name(s, e.name);
    if i < 0 {
        s.push(e)
    } else {
        s.update(i, e)
    }
}

pub proof fn lemma_find_name_props(s: Seq<DescEntry>, name: Seq<char>)
    ensures
        find_name(s, name) == -1 || (0 <= find_name(s, name) < s.len()),
        find_name(s, name) == -1 ==> forall|i: int| 0 <= i < s.len() ==> s[i].name != name,
        find_name(s, name) >= 0 ==> s[find_name(s, name)].name == name,
        forall|i: int| 0 <= i < find_name(s, name) ==> s[i].name != name,
    decreases s.len(),
{
    if s.len() > 0 && s[0].name != name {
        lemma_find_name_props(s.drop_first(), name);
        assert forall|i: int| 1 <= i < s.len() implies s.drop_first()[i - 1] == s[i] by {}
    }
}

pub proof fn lemma_count_name_one(s: Seq<DescEntry>, name: Seq<char>, at: int)
    requires
        0 <= at < s.len(),
        s[at].name == name,
        forall|i: int| 0 <= i < s.len() && i != at ==> s[i].name != name,
    ensures
        count_name(s, name) == 1,
    decreases s.len(),
{
    if at == s.len() - 1 {
        lemma_count_name_zero(s.drop_last(), name);
    } else {
        lemma_count_name_one(s.drop_last(), name, at);
    }
}

pub proof fn lemma_count_name_zero(s: Seq<DescEntry>, name: Seq<char>)
    requires
        forall|i: int| 0 <= i < s.len() ==> s[i].name != name,
    ensures
        count_name(s, name) == 0,
    decreases s.len(),
{
    if s.len() > 0 {
        lemma_count_name_zero(s.drop_last(), name);
    }
}

/// Registering never breaks name uniqueness.
pub proof fn lemma_register_preserves_unique(s: Seq<DescEntry>, e: DescEntry)
    requires
        unique_names(s),
    ensures
        unique_names(register_desc(s, e)),
{
    lemma_find_name_props(s, e.name);
}

/// Law: registering a name and then registering the same name again
/// leaves exactly one entry bearing that name, and it holds the second
/// registration's values; the second registration adds no entry.
pub proof fn lemma_register_last_write_wins(s: Seq<DescEntry>, e1: DescEntry, e2: DescEntry)
    requires
        unique_names(s),
        e1.name == e2.name,
    ensures
        ({
            let s2 = register_desc(register_desc(s, e1), e2);
            &&& count_name(s2, e2.name) == 1
            &&& 0 <= find_name(s2, e2.name) < s2.len()
            &&& s2[find_name(s2, e2.name)] == e2
            &&& s2.len() == register_desc(s, e1).len()
        }),
{
    let s1 = register_desc(s, e1);
    lemma_find_name_props(s, e1.name);
    lemma_register_preserves_unique(s, e1);
    let w1: int = if find_name(s, e1.name) < 0 {
        s.len() as int
    } else {
        find_name(s, e1.name)
    };
    assert(0 <= w1 < s1.len() && s1[w1] == e1);

    let i1 = find_name(s1, e2.name);
    lemma_find_name_props(s1, e2.name);
    assert(i1 >= 0) by {
        if i1 == -1 {
            assert(s1[w1].name == e2.name);
        }
    }
    let s2 = register_desc(s1, e2);
    lemma_register_preserves_unique(s1, e2);
    assert(s2 == s1.update(i1, e2));
    assert(s2[i1] == e2);

    let at = find_name(s2, e2.name);
    lemma_find_name_props(s2, e2.name);
    assert(at >= 0) by {
        if at == -1 {
            assert(s2[i1].name == e2.name);
        }
    }
    assert(s2[at].name == e2.name);
    assert(at == i1) by {
        if at < i1 {
            assert(s2[at].name != s2[i1].name);
        }
        if i1 < at {
            assert(s2[i1].name != s2[at].name);
        }
    }
    assert forall|i: int| 0 <= i < s2.len() && i != at implies s2[i].name != e2.name by {
        if i < at {
            assert(s2[i].name != s2[at].name);
        } else {
            assert(s2[at].name != s2[i].name);
        }
    }
    lemma_count_name_one(s2, e2.name, at);
}

/// Collects named machine-group descriptors and the run's duration
/// budget. Names stay unique; every registered count is positive; the
/// budget (held in minutes) stays positive.
pub struct BurstBuilder {
    pub descriptors: Vec<(String, MachineSetup, u32)>,
    pub max_duration_mins: i64,
}

impl BurstBuilder {
    /// The registry's contents as a sequence of entries, in registration
    /// order of first appearance.
    pub open spec fn descs(self) -> Seq<DescEntry> {
        self.descriptors@.map(|i: int, d: (String, MachineSetup, u32)| desc_entry(d))
    }

    pub open spec fn wf(self) -> bool {
        &&& unique_names(self.descs())
        &&& forall|i: int| 0 <= i < self.descs().len() ==> (#[trigger] self.descs()[i]).count > 0
        &&& 0 < self.max_duration_mins
    }

    /// Registers the group `name`: `number` machines, each launched and
    /// configured as `setup` says. A repeated name replaces that group's
    /// entry (last write wins). A zero count is refused.
    #[verifier::loop_isolation(false)]
    pub fn add_set(&mut self, name: &str, number: u32, setup: MachineSetup) -> (r: Result<
        (),
        Error,
    >)
        ensures
            r is Ok <==> number > 0,
            number == 0 ==> *final(self) == *old(self) && r == Err::<(), Error>(
                Error::InvalidDescriptor,
            ),
            number > 0 ==> final(self).descs() == register_desc(
                old(self).descs(),
                DescEntry {
                    name: name@,
                    instance_type: setup.instance_type@,
                    ami: setup.ami@,
                    count: number,
                },
            ) && final(self).max_duration_mins == old(self).max_duration_mins,
            old(self).wf() && number > 0 ==> final(self).wf(),
    {
        if number == 0 {
            return Err(Error::InvalidDescriptor);
        }
        let ghost entry = DescEntry {
            name: name@,
            instance_type: setup.instance_type@,
            ami: setup.ami@,
            count: number,
        };
        let owned = name.to_owned();
        let n = self.descriptors.len();
        let mut i: usize = 0;
        while i < n
            invariant
                *self == *old(self),
                owned@ == name@,
                n == self.descriptors@.len(),
                0 <= i <= n,
                forall|j: int| 0 <= j < i ==> (#[trigger] self.descs()[j]).name != name@,
            decreases n - i,
        {
            if self.descriptors[i].0 == owned {
                proof {
                    lemma_find_name_props(self.descs(), name@);
                    let r = find_name(self.descs(), name@);
                    assert(self.descs()[i as int].name == name@);
                    if r == -1 {
                        assert(self.descs()[i as int].name != name@);
                    }
                    if 0 <= r < i {
                        assert(self.descs()[r].name != name@);
                        assert(self.descs()[r].name == name@);
                    }
                    if i < r {
                        assert(self.descs()[i as int].name != name@);
                    }
                    assert(r == i);
                }
                let ghost pre = self.descs();
                self.descriptors.set(i, (owned, setup, number));
                proof {
                    assert(self.descs() =~= pre.update(i as int, entry));
                    if old(self).wf() {
                        lemma_register_preserves_unique(pre, entry);
                    }
                }
                return Ok(());
            }
            proof {
                assert(self.descs()[i as int].name == self.descriptors@[i as int].0@);
            }
            i += 1;
        }
        proof {
            lemma_find_name_props(self.descs(), name@);
            let r = find_name(self.descs(), name@);
            if r >= 0 {
                assert(self.descs()[r].name != name@);
                assert(self.descs()[r].name == name@);
            }
            assert(r == -1);
        }
        let ghost pre = self.descs();
        self.descriptors.push((owned, setup, number));
        proof {
            assert(self.descs() =~= pre.push(entry));
            if old(self).wf() {
                lemma_register_preserves_unique(pre, entry);
            }
        }
        Ok(())
    }

    /// Sets the duration budget: `hours` whole hours, held as minutes.
    /// A zero budget is refused.
    pub fn set_max_duration(&mut self, hours: u8) -> (r: Result<(), Error>)
        ensures
            r is Ok <==> hours > 0,
            hours == 0 ==> *final(self) == *old(self) && r == Err::<(), Error>(
                Error::InvalidConfig,
            ),
            hours > 0 ==> final(self).max_duration_mins == hours as i64 * 60,
            hours > 0 ==> final(self).descriptors == old(self).descriptors,
            old(self).wf() && hours > 0 ==> final(self).wf(),
    {
        if hours == 0 {
            return Err(Error::InvalidConfig);
        }
        self.max_duration_mins = hours as i64 * 60;
        Ok(())
    }
}

impl Default for BurstBuilder {
    /// An empty registry with a budget of one hour.
    fn default() -> (r: Self)
        ensures
            r.descs().len() == 0,
            r.max_duration_mins == 60,
            r.wf(),
    {
        BurstBuilder { descriptors: Vec::new(), max_duration_mins: 60 }
    }
}

} // verus!
