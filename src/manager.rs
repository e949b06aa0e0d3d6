//! The named collection of instances. Every instance carries a serial number
//! that is never reused; interval tickers and notification bridges hold only
//! that number, so once an instance is unloaded or replaced they find nothing
//! and stop.

use vstd::prelude::*;
use crate::registry::{
    EventType, Plugin, PluginError, Registration, RinningState, TickStep, event_type_of,
    listener_added, interval_added, interval_listeners_for, event_listeners_for,
};
use crate::text::text_eq;
use crate::vm::{LuaHandler, LuaVMError};

verus! {

/// A script that discovery found: its instance name and its path.
pub struct ScriptEntry {
    pub name: String,
    pub path: String,
}

/// The outcome of reading one discovered script file.
pub struct ScriptRead {
    pub name: String,
    pub path: String,
    pub text: Result<String, String>,
}

/// A script that could not be loaded, and why.
#[derive(Debug, PartialEq, Eq)]
pub struct LoadFailure {
    pub name: String,
    pub reason: String,
}

/// A script to execute: the instance's name, serial number and text.
#[derive(Debug, PartialEq, Eq)]
pub struct RunTicket {
    pub name: String,
    pub serial: u64,
    pub script: String,
}

/// Why a manager operation failed.
#[derive(Debug, PartialEq, Eq)]
pub enum ManagerError {
    /// The instance operation failed.
    LuaVM(LuaVMError),
    /// No instance and no discovered script has that name.
    NotFound,
    /// No instance has that serial number any more.
    InstanceGone,
}

pub type Instances = Map<Seq<char>, LuaHandler>;

/// Whether some instance has serial number `s`.
pub open spec fn serial_in(m: Instances, s: u64) -> bool {
    exists|k: Seq<char>| m.contains_key(k) && #[trigger] m[k].serial == s
}

/// The name of the instance with serial number `s`.
pub open spec fn name_of_serial(m: Instances, s: u64) -> Seq<char> {
    choose|k: Seq<char>| m.contains_key(k) && #[trigger] m[k].serial == s
}

/// The listeners that a notification of `kind` reaches through serial `s`:
/// none unless that instance still exists and is running.
pub open spec fn event_targets(m: Instances, s: u64, kind: EventType) -> Seq<u64> {
    if serial_in(m, s) && m[name_of_serial(m, s)].luavm.running_state == RinningState::Running {
        m[name_of_serial(m, s)].plugin.listeners(kind)
    } else {
        Seq::empty()
    }
}

/// Whether `reads` holds a successful read for `name`.
pub open spec fn has_ok_read(reads: Seq<ScriptRead>, name: Seq<char>) -> bool {
    exists|i: int| 0 <= i < reads.len() && #[trigger] reads[i].name@ == name && reads[i].text is Ok
}

/// `reads[i]` is the last successful read for `name`.
pub open spec fn is_last_ok_read(reads: Seq<ScriptRead>, i: int, name: Seq<char>) -> bool {
    &&& 0 <= i < reads.len()
    &&& reads[i].name@ == name
    &&& reads[i].text is Ok
    &&& forall|j: int| i < j < reads.len() ==> !(#[trigger] reads[j].name@ == name && reads[j].text is Ok)
}

/// The failed reads, in order, as (name, reason).
pub open spec fn failed_reads(reads: Seq<ScriptRead>) -> Seq<(Seq<char>, Seq<char>)>
    decreases reads.len(),
{
    if reads.len() == 0 {
        Seq::empty()
    } else {
        let last = reads.last();
        let before = failed_reads(reads.drop_last());
        match last.text {
            Ok(_) => before,
            Err(reason) => before.push((last.name@, reason@)),
        }
    }
}

/// A list of load failures as (name, reason).
pub open spec fn failure_view(f: Seq<LoadFailure>) -> Seq<(Seq<char>, Seq<char>)> {
    f.map_values(|x: LoadFailure| (x.name@, x.reason@))
}

/// `after` is `before` with the successful reads of `reads` loaded in order,
/// read `i` under serial `base + i`; a later read of a name replaces an
/// earlier one.
pub open spec fn loaded_all(before: Instances, after: Instances, reads: Seq<ScriptRead>, base: u64) -> bool {
    &&& forall|k: Seq<char>| #[trigger] after.contains_key(k) <==> (before.contains_key(k) || has_ok_read(reads, k))
    &&& forall|k: Seq<char>, i: int| #[trigger] is_last_ok_read(reads, i, k) ==>
            (#[trigger] after[k]).is_fresh_load(k, reads[i].path@, reads[i].text->Ok_0@, (base + i) as u64)
    &&& forall|k: Seq<char>| before.contains_key(k) && !has_ok_read(reads, k) ==> #[trigger] after[k] == before[k]
}

/// `t` lists each instance of `m` once, with its serial number and text.
pub open spec fn tickets_cover(m: Instances, t: Seq<RunTicket>) -> bool {
    &&& forall|j: int| 0 <= j < t.len() ==> {
        &&& m.contains_key(#[trigger] t[j].name@)
        &&& m[t[j].name@].serial == t[j].serial
        &&& m[t[j].name@].data.script matches Some(s) && s@ == t[j].script@
    }
    &&& forall|k: Seq<char>| m.contains_key(k) ==> exists|j: int| 0 <= j < t.len() && #[trigger] t[j].name@ == k
    &&& forall|i: int, j: int| 0 <= i < j < t.len() ==> t[i].name@ != t[j].name@
}

/// `after` is `before` with the instance of serial `s` marked running.
pub open spec fn marked_running(before: Instances, after: Instances, s: u64) -> bool {
    let k = name_of_serial(before, s);
    &&& serial_in(before, s)
    &&& after.dom() == before.dom()
    &&& forall|o: Seq<char>| before.contains_key(o) && o != k ==> #[trigger] after[o] == before[o]
    &&& after[k].data == before[k].data
    &&& after[k].plugin == before[k].plugin
    &&& after[k].serial == before[k].serial
    &&& after[k].luavm.running_state == RinningState::Running
}

/// `after` is `before` with `name` freshly loaded from `path` with `text`
/// under serial `s`, replacing any instance of that name.
pub open spec fn reloaded(before: Instances, after: Instances, name: Seq<char>, path: Seq<char>, text: Seq<char>, s: u64) -> bool {
    &&& after.dom() == before.dom().insert(name)
    &&& forall|o: Seq<char>| before.contains_key(o) && o != name ==> #[trigger] after[o] == before[o]
    &&& after[name].is_fresh_load(name, path, text, s)
}

pub struct LuaManager {
    vm: Vec<LuaHandler>,
    next_serial: u64,
    instances: Ghost<Instances>,
}

impl LuaManager {
    /// The instances by name.
    pub closed spec fn instances(&self) -> Instances {
        self.instances@
    }

    /// The serial number that the next new instance gets.
    pub closed spec fn next_serial(&self) -> u64 {
        self.next_serial
    }

    pub closed spec fn wf(&self) -> bool {
        &&& forall|i: int, j: int| 0 <= i < j < self.vm@.len() ==> self.vm@[i].data.name@ != self.vm@[j].data.name@
        &&& forall|i: int, j: int| 0 <= i < j < self.vm@.len() ==> self.vm@[i].serial != self.vm@[j].serial
        &&& forall|i: int| 0 <= i < self.vm@.len() ==> {
            &&& self.instances@.contains_key(#[trigger] self.vm@[i].data.name@)
            &&& self.instances@[self.vm@[i].data.name@] == self.vm@[i]
            &&& self.vm@[i].wf()
            &&& self.vm@[i].serial < self.next_serial
            &&& self.vm@[i].data.script is Some
        }
        &&& forall|k: Seq<char>| #[trigger] self.instances@.contains_key(k) ==>
                exists|i: int| 0 <= i < self.vm@.len() && self.vm@[i].data.name@ == k
    }

    /// What well-formedness gives over the instance map.
    pub proof fn lemma_instances(&self)
        requires
            self.wf(),
        ensures
            forall|k: Seq<char>| #[trigger] self.instances().contains_key(k) ==> {
                &&& self.instances()[k].data.name@ == k
                &&& self.instances()[k].wf()
                &&& self.instances()[k].serial < self.next_serial()
                &&& self.instances()[k].data.script is Some
            },
            forall|a: Seq<char>, b: Seq<char>|
                self.instances().contains_key(a) && self.instances().contains_key(b)
                    && #[trigger] self.instances()[a].serial == #[trigger] self.instances()[b].serial ==> a == b,
    {
        assert forall|k: Seq<char>| #[trigger] self.instances().contains_key(k) implies {
            &&& self.instances()[k].data.name@ == k
            &&& self.instances()[k].wf()
            &&& self.instances()[k].serial < self.next_serial()
            &&& self.instances()[k].data.script is Some
        } by {
            let i = choose|i: int| 0 <= i < self.vm@.len() && self.vm@[i].data.name@ == k;
            assert(self.instances@.contains_key(self.vm@[i].data.name@));
        }
        assert forall|a: Seq<char>, b: Seq<char>|
            self.instances().contains_key(a) && self.instances().contains_key(b)
                && #[trigger] self.instances()[a].serial == #[trigger] self.instances()[b].serial implies a == b by {
            let i = choose|i: int| 0 <= i < self.vm@.len() && self.vm@[i].data.name@ == a;
            let j = choose|j: int| 0 <= j < self.vm@.len() && self.vm@[j].data.name@ == b;
            assert(self.instances@.contains_key(self.vm@[i].data.name@));
            assert(self.instances@.contains_key(self.vm@[j].data.name@));
            if i < j {
            } else if j < i {
            }
        }
    }

    pub fn new() -> (r: LuaManager)
        ensures
            r.wf(),
            r.instances() == Instances::empty(),
            r.next_serial() == 0,
    {
        LuaManager { vm: Vec::new(), next_serial: 0, instances: Ghost(Map::empty()) }
    }

    /// The position of the instance named `name`.
    fn find_name(&self, name: &str) -> (r: Option<usize>)
        requires
            self.wf(),
        ensures
            match r {
                None => !self.instances().contains_key(name@),
                Some(i) => i < self.vm@.len() && self.vm@[i as int].data.name@ == name@,
            },
    {
        let mut i: usize = 0;
        while i < self.vm.len()
            invariant
                self.wf(),
                i <= self.vm@.len(),
                forall|j: int| 0 <= j < i ==> self.vm@[j].data.name@ != name@,
            decreases self.vm@.len() - i,
        {
            if text_eq(self.vm[i].data.name.as_str(), name) {
                return Some(i);
            }
            i = i + 1;
        }
        proof {
            if self.instances().contains_key(name@) {
                let j = choose|j: int| 0 <= j < self.vm@.len() && self.vm@[j].data.name@ == name@;
                assert(self.vm@[j].data.name@ != name@);
            }
        }
        None
    }

    /// The position of the instance with serial number `serial`.
    fn find_serial(&self, serial: u64) -> (r: Option<usize>)
        requires
            self.wf(),
        ensures
            match r {
                None => !serial_in(self.instances(), serial),
                Some(i) => i < self.vm@.len() && self.vm@[i as int].serial == serial
                    && name_of_serial(self.instances(), serial) == self.vm@[i as int].data.name@
                    && serial_in(self.instances(), serial),
            },
    {
        let mut i: usize = 0;
        while i < self.vm.len()
            invariant
                self.wf(),
                i <= self.vm@.len(),
                forall|j: int| 0 <= j < i ==> self.vm@[j].serial != serial,
            decreases self.vm@.len() - i,
        {
            if self.vm[i].serial == serial {
                proof {
                    self.lemma_instances();
                    let k = self.vm@[i as int].data.name@;
                    assert(self.instances().contains_key(k));
                    assert(serial_in(self.instances(), serial));
                    let c = name_of_serial(self.instances(), serial);
                    assert(self.instances()[c].serial == self.instances()[k].serial);
                }
                return Some(i);
            }
            i = i + 1;
        }
        proof {
            if serial_in(self.instances(), serial) {
                let k = choose|k: Seq<char>| self.instances().contains_key(k) && #[trigger] self.instances()[k].serial == serial;
                let j = choose|j: int| 0 <= j < self.vm@.len() && self.vm@[j].data.name@ == k;
                assert(self.instances@.contains_key(self.vm@[j].data.name@));
            }
        }
        None
    }
}


/// The step from `reads.take(i)` to `reads.take(i + 1)` for the successful
/// reads of one name.
proof fn lemma_read_step(reads: Seq<ScriptRead>, i: int, k: Seq<char>)
    requires
        0 <= i < reads.len(),
    ensures
        has_ok_read(reads.take(i + 1), k) <==> (has_ok_read(reads.take(i), k) || (reads[i].name@ == k && reads[i].text is Ok)),
        reads[i].name@ == k && reads[i].text is Ok ==> is_last_ok_read(reads.take(i + 1), i, k),
        !(reads[i].name@ == k && reads[i].text is Ok) ==> forall|j: int|
            is_last_ok_read(reads.take(i + 1), j, k) <==> is_last_ok_read(reads.take(i), j, k),
        failed_reads(reads.take(i + 1)) == match reads[i].text {
            Ok(_) => failed_reads(reads.take(i)),
            Err(reason) => failed_reads(reads.take(i)).push((reads[i].name@, reason@)),
        },
{
    let a = reads.take(i);
    let b = reads.take(i + 1);
    assert(b.drop_last() =~= a);
    if has_ok_read(b, k) && !(reads[i].name@ == k && reads[i].text is Ok) {
        let j = choose|j: int| 0 <= j < b.len() && #[trigger] b[j].name@ == k && b[j].text is Ok;
        assert(a[j].name@ == k);
    }
    if has_ok_read(a, k) {
        let j = choose|j: int| 0 <= j < a.len() && #[trigger] a[j].name@ == k && a[j].text is Ok;
        assert(b[j].name@ == k);
    }
    if reads[i].name@ == k && reads[i].text is Ok {
        assert(b[i].name@ == k);
    }
}

impl LuaManager {
    /// Adds `h` under its name, replacing an instance of the same name.
    fn put(&mut self, h: LuaHandler)
        requires
            old(self).wf(),
            h.wf(),
            h.data.script is Some,
            old(self).next_serial() <= h.serial < u64::MAX,
        ensures
            final(self).wf(),
            final(self).instances() == old(self).instances().insert(h.data.name@, h),
            final(self).next_serial() == h.serial + 1,
    {
        let ghost name = h.data.name@;
        let ghost hv = h;
        let ghost old_vm = self.vm@;
        let ghost old_map = self.instances@;
        let serial = h.serial;
        match self.find_name(h.data.name.as_str()) {
            Some(i) => {
                self.vm.set(i, h);
                self.instances = Ghost(self.instances@.insert(name, hv));
                self.next_serial = serial + 1;
                assert forall|k: Seq<char>| #[trigger] self.instances@.contains_key(k) implies
                    exists|j: int| 0 <= j < self.vm@.len() && self.vm@[j].data.name@ == k by {
                    if k == name {
                        assert(self.vm@[i as int].data.name@ == k);
                    } else {
                        let j = choose|j: int| 0 <= j < old_vm.len() && old_vm[j].data.name@ == k;
                        assert(self.vm@[j].data.name@ == k);
                    }
                }
                assert forall|j: int| 0 <= j < self.vm@.len() implies {
                    &&& self.instances@.contains_key(#[trigger] self.vm@[j].data.name@)
                    &&& self.instances@[self.vm@[j].data.name@] == self.vm@[j]
                    &&& self.vm@[j].wf()
                    &&& self.vm@[j].serial < self.next_serial
                    &&& self.vm@[j].data.script is Some
                } by {
                    if j != i {
                        assert(old_vm[j].data.name@ != name);
                    }
                }
                assert forall|a: int, b: int| 0 <= a < b < self.vm@.len() implies
                    self.vm@[a].data.name@ != self.vm@[b].data.name@ && self.vm@[a].serial != self.vm@[b].serial by {
                    assert(old_vm[a].serial < serial && old_vm[b].serial < serial);
                    assert(old_vm[i as int].data.name@ == name);
                }
            },
            None => {
                self.vm.push(h);
                self.instances = Ghost(self.instances@.insert(name, hv));
                self.next_serial = serial + 1;
                assert forall|k: Seq<char>| #[trigger] self.instances@.contains_key(k) implies
                    exists|j: int| 0 <= j < self.vm@.len() && self.vm@[j].data.name@ == k by {
                    if k == name {
                        assert(self.vm@[old_vm.len() as int].data.name@ == k);
                    } else {
                        let j = choose|j: int| 0 <= j < old_vm.len() && old_vm[j].data.name@ == k;
                        assert(self.vm@[j].data.name@ == k);
                    }
                }
                assert forall|j: int| 0 <= j < self.vm@.len() implies {
                    &&& self.instances@.contains_key(#[trigger] self.vm@[j].data.name@)
                    &&& self.instances@[self.vm@[j].data.name@] == self.vm@[j]
                    &&& self.vm@[j].wf()
                    &&& self.vm@[j].serial < self.next_serial
                    &&& self.vm@[j].data.script is Some
                } by {
                    if j < old_vm.len() {
                        assert(old_map.contains_key(old_vm[j].data.name@));
                    }
                }
                assert forall|a: int, b: int| 0 <= a < b < self.vm@.len() implies
                    self.vm@[a].data.name@ != self.vm@[b].data.name@ && self.vm@[a].serial != self.vm@[b].serial by {
                    assert(old_vm[a].serial < serial);
                    assert(old_map.contains_key(old_vm[a].data.name@));
                }
            },
        }
    }

    /// Discards every instance. Background work that held their serial
    /// numbers finds nothing from now on.
    pub fn unload_all(&mut self)
        requires
            old(self).wf(),
        ensures
            final(self).wf(),
            final(self).instances() == Instances::empty(),
            final(self).next_serial() == old(self).next_serial(),
    {
        self.vm = Vec::new();
        self.instances = Ghost(Map::empty());
    }

    /// Discards the instance named `name`, if there is one.
    pub fn unload(&mut self, name: &str) -> (r: Result<(), ManagerError>)
        requires
            old(self).wf(),
        ensures
            final(self).wf(),
            r is Ok,
            final(self).instances() == old(self).instances().remove(name@),
            final(self).next_serial() == old(self).next_serial(),
    {
        match self.find_name(name) {
            None => {
                assert(self.instances@.remove(name@) =~= self.instances@);
            },
            Some(i) => {
                let ghost old_vm = self.vm@;
                let ghost old_map = self.instances@;
                self.vm.remove(i);
                self.instances = Ghost(self.instances@.remove(name@));
                assert forall|k: Seq<char>| #[trigger] self.instances@.contains_key(k) implies
                    exists|j: int| 0 <= j < self.vm@.len() && self.vm@[j].data.name@ == k by {
                    let j = choose|j: int| 0 <= j < old_vm.len() && old_vm[j].data.name@ == k;
                    if j < i {
                        assert(self.vm@[j].data.name@ == k);
                    } else {
                        assert(j != i);
                        assert(self.vm@[j - 1].data.name@ == k);
                    }
                }
                assert forall|j: int| 0 <= j < self.vm@.len() implies {
                    &&& self.instances@.contains_key(#[trigger] self.vm@[j].data.name@)
                    &&& self.instances@[self.vm@[j].data.name@] == self.vm@[j]
                    &&& self.vm@[j].wf()
                    &&& self.vm@[j].serial < self.next_serial
                    &&& self.vm@[j].data.script is Some
                } by {
                    if j < i {
                        assert(self.vm@[j] == old_vm[j]);
                        assert(old_map.contains_key(old_vm[j].data.name@));
                    } else {
                        assert(self.vm@[j] == old_vm[j + 1]);
                        assert(old_map.contains_key(old_vm[j + 1].data.name@));
                    }
                }
                assert forall|a: int, b: int| 0 <= a < b < self.vm@.len() implies
                    self.vm@[a].data.name@ != self.vm@[b].data.name@ && self.vm@[a].serial != self.vm@[b].serial by {
                    let oa = if a < i { a } else { a + 1 };
                    let ob = if b < i { b } else { b + 1 };
                    assert(self.vm@[a] == old_vm[oa]);
                    assert(self.vm@[b] == old_vm[ob]);
                }
            },
        }
        Ok(())
    }

    /// Loads every successful read as a new instance, in order, and records
    /// every failed read; one failure does not stop the others. Read `i`
    /// gets serial number `next_serial() + i`.
    pub fn load_all(&mut self, reads: &Vec<ScriptRead>) -> (r: Vec<LoadFailure>)
        requires
            old(self).wf(),
            old(self).next_serial() + reads@.len() <= u64::MAX,
        ensures
            final(self).wf(),
            loaded_all(old(self).instances(), final(self).instances(), reads@, old(self).next_serial()),
            final(self).next_serial() == old(self).next_serial() + reads@.len(),
            failure_view(r@) == failed_reads(reads@),
    {
        let mut failures: Vec<LoadFailure> = Vec::new();
        let ghost base = self.next_serial;
        let ghost before = self.instances@;
        let mut i: usize = 0;
        assert(reads@.take(0) =~= Seq::<ScriptRead>::empty());
        assert(failure_view(failures@) =~= Seq::empty());
        while i < reads.len()
            invariant
                self.wf(),
                i <= reads@.len(),
                self.next_serial == base + i,
                base + reads@.len() <= u64::MAX,
                loaded_all(before, self.instances(), reads@.take(i as int), base),
                failure_view(failures@) == failed_reads(reads@.take(i as int)),
            decreases reads@.len() - i,
        {
            let ghost mid = self.instances@;
            let read = &reads[i];
            proof {
                assert forall|k: Seq<char>| true implies {
                    &&& (has_ok_read(reads@.take(i + 1), k) <==> (has_ok_read(reads@.take(i as int), k) || (reads@[i as int].name@ == k && reads@[i as int].text is Ok)))
                    &&& (reads@[i as int].name@ == k && reads@[i as int].text is Ok ==> is_last_ok_read(reads@.take(i + 1), i as int, k))
                    &&& (!(reads@[i as int].name@ == k && reads@[i as int].text is Ok) ==> forall|j: int|
                        is_last_ok_read(reads@.take(i + 1), j, k) <==> is_last_ok_read(reads@.take(i as int), j, k))
                } by {
                    lemma_read_step(reads@, i as int, k);
                }
                // the step of the failure list, which holds for any name
                lemma_read_step(reads@, i as int, Seq::empty());
            }
            match &read.text {
                Ok(text) => {
                    let mut h = LuaHandler::new(read.name.as_str(), self.next_serial);
                    let _ = h.load_file(read.path.as_str(), Ok(text.clone()));
                    self.put(h);
                    proof {
                        let k0 = read.name@;
                        assert forall|k: Seq<char>, j: int| #[trigger] is_last_ok_read(reads@.take(i + 1), j, k) implies
                            (#[trigger] self.instances()[k]).is_fresh_load(k, reads@.take(i + 1)[j].path@, reads@.take(i + 1)[j].text->Ok_0@, (base + j) as u64) by {
                            if k == k0 {
                                assert(j == i);
                            } else {
                                assert(is_last_ok_read(reads@.take(i as int), j, k));
                                assert(reads@.take(i + 1)[j] == reads@.take(i as int)[j]);
                            }
                        }
                    }
                },
                Err(reason) => {
                    failures.push(LoadFailure { name: read.name.clone(), reason: reason.clone() });
                    let ghost pre = *self;
                    self.next_serial = self.next_serial + 1;
                    proof {
                        assert forall|j: int| 0 <= j < self.vm@.len() implies {
                            &&& self.instances@.contains_key(#[trigger] self.vm@[j].data.name@)
                            &&& self.instances@[self.vm@[j].data.name@] == self.vm@[j]
                            &&& self.vm@[j].wf()
                            &&& self.vm@[j].serial < self.next_serial
                            &&& self.vm@[j].data.script is Some
                        } by {
                            assert(pre.instances@.contains_key(pre.vm@[j].data.name@));
                        }
                        assert(self.wf());
                        assert(failure_view(failures@) =~= failure_view(failures@.drop_last()).push((read.name@, reason@)));
                        assert forall|k: Seq<char>, j: int| #[trigger] is_last_ok_read(reads@.take(i + 1), j, k) implies
                            (#[trigger] self.instances()[k]).is_fresh_load(k, reads@.take(i + 1)[j].path@, reads@.take(i + 1)[j].text->Ok_0@, (base + j) as u64) by {
                            assert(is_last_ok_read(reads@.take(i as int), j, k));
                            assert(reads@.take(i + 1)[j] == reads@.take(i as int)[j]);
                        }
                    }
                },
            }
            i = i + 1;
        }
        assert(reads@.take(reads@.len() as int) =~= reads@);
        failures
    }
}


impl LuaManager {
    /// Replacing the instance at `i` by one of the same name and serial
    /// number keeps the manager well formed.
    proof fn lemma_replaced(old_m: LuaManager, new_m: LuaManager, i: int)
        requires
            old_m.wf(),
            0 <= i < old_m.vm@.len(),
            new_m.vm@ == old_m.vm@.update(i, new_m.vm@[i]),
            new_m.vm@[i].wf(),
            new_m.vm@[i].data.script is Some,
            new_m.vm@[i].data.name@ == old_m.vm@[i].data.name@,
            new_m.vm@[i].serial == old_m.vm@[i].serial,
            new_m.next_serial == old_m.next_serial,
            new_m.instances@ == old_m.instances@.insert(old_m.vm@[i].data.name@, new_m.vm@[i]),
        ensures
            new_m.wf(),
    {
        let name = old_m.vm@[i].data.name@;
        assert forall|k: Seq<char>| #[trigger] new_m.instances@.contains_key(k) implies
            exists|j: int| 0 <= j < new_m.vm@.len() && new_m.vm@[j].data.name@ == k by {
            let j = choose|j: int| 0 <= j < old_m.vm@.len() && old_m.vm@[j].data.name@ == k;
            if j == i {
                assert(new_m.vm@[i].data.name@ == k);
            } else {
                assert(new_m.vm@[j].data.name@ == k);
            }
        }
        assert forall|j: int| 0 <= j < new_m.vm@.len() implies {
            &&& new_m.instances@.contains_key(#[trigger] new_m.vm@[j].data.name@)
            &&& new_m.instances@[new_m.vm@[j].data.name@] == new_m.vm@[j]
            &&& new_m.vm@[j].wf()
            &&& new_m.vm@[j].serial < new_m.next_serial
            &&& new_m.vm@[j].data.script is Some
        } by {
            if j != i {
                assert(old_m.vm@[j].data.name@ != name);
                assert(old_m.instances@.contains_key(old_m.vm@[j].data.name@));
            } else {
                assert(old_m.instances@.contains_key(old_m.vm@[i].data.name@));
            }
        }
        assert forall|a: int, b: int| 0 <= a < b < new_m.vm@.len() implies
            new_m.vm@[a].data.name@ != new_m.vm@[b].data.name@ && new_m.vm@[a].serial != new_m.vm@[b].serial by {
            assert(old_m.vm@[a].data.name@ != old_m.vm@[b].data.name@);
        }
    }

    /// Puts `h` back at position `i`, from which an instance of the same
    /// name and serial number was taken out of `before`.
    fn restore(&mut self, i: usize, h: LuaHandler, Ghost(before): Ghost<LuaManager>)
        requires
            before.wf(),
            i < before.vm@.len(),
            old(self).vm@ == before.vm@.remove(i as int),
            old(self).instances@ == before.instances@,
            old(self).next_serial == before.next_serial,
            h.wf(),
            h.data.script is Some,
            h.data.name@ == before.vm@[i as int].data.name@,
            h.serial == before.vm@[i as int].serial,
        ensures
            final(self).wf(),
            final(self).next_serial() == before.next_serial(),
            final(self).instances() == before.instances().insert(h.data.name@, h),
            final(self).instances().dom() == before.instances().dom(),
            before.instances()[h.data.name@] == before.vm@[i as int],
            serial_in(before.instances(), h.serial),
            name_of_serial(before.instances(), h.serial) == h.data.name@,
            name_of_serial(final(self).instances(), h.serial) == h.data.name@,
    {
        let ghost name = h.data.name@;
        let ghost hv = h;
        proof {
            before.lemma_instances();
            assert(before.instances@.contains_key(before.vm@[i as int].data.name@));
        }
        self.vm.insert(i, h);
        self.instances = Ghost(self.instances@.insert(name, hv));
        proof {
            assert(self.vm@ =~= before.vm@.update(i as int, hv));
            LuaManager::lemma_replaced(before, *self, i as int);
            assert(self.instances@.dom() =~= before.instances@.dom());
            self.lemma_instances();
            assert(before.instances()[name].serial == hv.serial);
            let k = name_of_serial(before.instances(), hv.serial);
            assert(before.instances()[k].serial == before.instances()[name].serial);
            assert(self.instances()[name].serial == hv.serial);
            let k2 = name_of_serial(self.instances(), hv.serial);
            assert(self.instances()[k2].serial == self.instances()[name].serial);
        }
    }

    /// One ticket per instance, to execute each instance's script; the
    /// outcome of each comes back through `finish_run`.
    pub fn run_all(&self) -> (r: Vec<RunTicket>)
        requires
            self.wf(),
        ensures
            tickets_cover(self.instances(), r@),
    {
        let mut tickets: Vec<RunTicket> = Vec::new();
        let mut i: usize = 0;
        while i < self.vm.len()
            invariant
                self.wf(),
                i <= self.vm@.len(),
                tickets@.len() == i,
                forall|j: int| 0 <= j < i ==> {
                    &&& #[trigger] tickets@[j].name@ == self.vm@[j].data.name@
                    &&& tickets@[j].serial == self.vm@[j].serial
                    &&& self.vm@[j].data.script matches Some(s) && s@ == tickets@[j].script@
                },
            decreases self.vm@.len() - i,
        {
            let h = &self.vm[i];
            let script = match &h.data.script {
                Some(s) => s.clone(),
                None => String::new(),
            };
            let ghost before = tickets@;
            tickets.push(RunTicket { name: h.data.name.clone(), serial: h.serial, script });
            proof {
                assert(self.vm@[i as int].data.script is Some);
                assert forall|j: int| 0 <= j < i + 1 implies {
                    &&& #[trigger] tickets@[j].name@ == self.vm@[j].data.name@
                    &&& tickets@[j].serial == self.vm@[j].serial
                    &&& self.vm@[j].data.script matches Some(s) && s@ == tickets@[j].script@
                } by {
                    if j < i {
                        assert(tickets@[j] == before[j]);
                    }
                }
            }
            i = i + 1;
        }
        proof {
            assert forall|j: int| 0 <= j < tickets@.len() implies {
                &&& self.instances().contains_key(#[trigger] tickets@[j].name@)
                &&& self.instances()[tickets@[j].name@].serial == tickets@[j].serial
                &&& self.instances()[tickets@[j].name@].data.script matches Some(s) && s@ == tickets@[j].script@
            } by {
                assert(self.instances@.contains_key(self.vm@[j].data.name@));
            }
            assert forall|k: Seq<char>| self.instances().contains_key(k) implies
                exists|j: int| 0 <= j < tickets@.len() && #[trigger] tickets@[j].name@ == k by {
                let j = choose|j: int| 0 <= j < self.vm@.len() && self.vm@[j].data.name@ == k;
                assert(tickets@[j].name@ == k);
            }
            assert forall|a: int, b: int| 0 <= a < b < tickets@.len() implies tickets@[a].name@ != tickets@[b].name@ by {
                assert(tickets@[a].name@ == self.vm@[a].data.name@);
                assert(tickets@[b].name@ == self.vm@[b].data.name@);
            }
        }
        tickets
    }

    /// Records the outcome of executing the script of the instance with
    /// serial number `serial`. Success makes it running. A fault in a run of
    /// an instance that is not running yet (a freshly loaded script whose
    /// top-level code fails) discards the instance; a fault in an instance
    /// that already runs leaves it as it was.
    pub fn finish_run(&mut self, serial: u64, outcome: Result<(), String>) -> (r: Result<(), ManagerError>)
        requires
            old(self).wf(),
        ensures
            final(self).wf(),
            final(self).next_serial() == old(self).next_serial(),
            !serial_in(old(self).instances(), serial) ==> r == Err::<(), ManagerError>(ManagerError::InstanceGone)
                && final(self).instances() == old(self).instances(),
            serial_in(old(self).instances(), serial) ==> match outcome {
                Ok(()) => r is Ok && marked_running(old(self).instances(), final(self).instances(), serial),
                Err(reason) => r == Err::<(), ManagerError>(ManagerError::LuaVM(LuaVMError::LuaRuntime { reason }))
                    && final(self).instances() == (if old(self).instances()[name_of_serial(old(self).instances(), serial)].luavm.running_state
                        == RinningState::Running {
                        old(self).instances()
                    } else {
                        old(self).instances().remove(name_of_serial(old(self).instances(), serial))
                    }),
            },
    {
        match self.find_serial(serial) {
            None => Err(ManagerError::InstanceGone),
            Some(i) => {
                let ghost before = *self;
                proof {
                    before.lemma_instances();
                    assert(before.instances@.contains_key(before.vm@[i as int].data.name@));
                }
                match outcome {
                    Err(reason) => {
                        if !self.vm[i].luavm.is_running() {
                            let name = self.vm[i].data.name.clone();
                            let _ = self.unload(name.as_str());
                        }
                        Err(ManagerError::LuaVM(LuaVMError::LuaRuntime { reason }))
                    },
                    Ok(()) => {
                        let mut h = self.vm.remove(i);
                        let _ = h.finish_run(Ok(()));
                        self.restore(i, h, Ghost(before));
                        Ok(())
                    },
                }
            },
        }
    }

    /// The path to read for a reload of `name`: the path that the instance
    /// was loaded from if it exists, else the path of the first discovered
    /// script of that name, else `NotFound`. Nothing changes.
    pub fn reload(&self, name: &str, listing: &Vec<ScriptEntry>) -> (r: Result<String, ManagerError>)
        requires
            self.wf(),
        ensures
            self.instances().contains_key(name@) ==> (r matches Ok(p) && self.instances()[name@].data.file_path == Some(p)),
            !self.instances().contains_key(name@) ==> match r {
                Ok(p) => exists|j: int| 0 <= j < listing@.len() && #[trigger] listing@[j].name@ == name@
                    && listing@[j].path == p
                    && forall|l: int| 0 <= l < j ==> listing@[l].name@ != name@,
                Err(e) => e == ManagerError::NotFound
                    && forall|j: int| 0 <= j < listing@.len() ==> #[trigger] listing@[j].name@ != name@,
            },
    {
        match self.find_name(name) {
            Some(i) => {
                proof {
                    self.lemma_instances();
                    assert(self.instances@.contains_key(self.vm@[i as int].data.name@));
                }
                match self.vm[i].reload() {
                    Ok(p) => Ok(p),
                    Err(e) => Err(ManagerError::LuaVM(e)),
                }
            },
            None => {
                let mut j: usize = 0;
                while j < listing.len()
                    invariant
                        !self.instances().contains_key(name@),
                        j <= listing@.len(),
                        forall|l: int| 0 <= l < j ==> #[trigger] listing@[l].name@ != name@,
                    decreases listing@.len() - j,
                {
                    if text_eq(listing[j].name.as_str(), name) {
                        return Ok(listing[j].path.clone());
                    }
                    j = j + 1;
                }
                Err(ManagerError::NotFound)
            },
        }
    }

    /// Records the outcome of reading `path` for a reload of `name`. On
    /// success a fresh instance (new interpreter, empty registry, new serial
    /// number) takes the name, and its ticket is returned; on failure
    /// nothing changes.
    pub fn complete_reload(&mut self, name: &str, path: &str, read: Result<String, String>) -> (r: Result<RunTicket, ManagerError>)
        requires
            old(self).wf(),
            old(self).next_serial() < u64::MAX,
        ensures
            final(self).wf(),
            match read {
                Err(reason) => r == Err::<RunTicket, ManagerError>(ManagerError::LuaVM(LuaVMError::LoadFile { reason }))
                    && final(self).instances() == old(self).instances()
                    && final(self).next_serial() == old(self).next_serial(),
                Ok(text) => r matches Ok(t) && t.name@ == name@ && t.serial == old(self).next_serial() && t.script == text
                    && reloaded(old(self).instances(), final(self).instances(), name@, path@, text@, old(self).next_serial())
                    && final(self).next_serial() == old(self).next_serial() + 1,
            },
    {
        match read {
            Err(reason) => Err(ManagerError::LuaVM(LuaVMError::LoadFile { reason })),
            Ok(text) => {
                let serial = self.next_serial;
                let script = text.clone();
                let mut h = LuaHandler::new(name, serial);
                let _ = h.load_file(path, Ok(text));
                self.put(h);
                proof {
                    assert(self.instances().dom() =~= old(self).instances().dom().insert(name@));
                }
                Ok(RunTicket { name: name.to_owned(), serial, script })
            },
        }
    }

    /// Unloads everything, loads every successful read, and hands out one
    /// ticket per loaded instance, in that order, so that old and new
    /// instances of one name never exist together.
    pub fn reload_all(&mut self, reads: &Vec<ScriptRead>) -> (r: (Vec<LoadFailure>, Vec<RunTicket>))
        requires
            old(self).wf(),
            old(self).next_serial() + reads@.len() <= u64::MAX,
        ensures
            final(self).wf(),
            loaded_all(Instances::empty(), final(self).instances(), reads@, old(self).next_serial()),
            final(self).next_serial() == old(self).next_serial() + reads@.len(),
            failure_view(r.0@) == failed_reads(reads@),
            tickets_cover(final(self).instances(), r.1@),
    {
        self.unload_all();
        let failures = self.load_all(reads);
        let tickets = self.run_all();
        (failures, tickets)
    }
}


/// `after` is `before` but for the registry of the instance with serial
/// number `s`, which may differ.
pub open spec fn others_kept(before: Instances, after: Instances, s: u64) -> bool {
    let k = name_of_serial(before, s);
    &&& after.dom() == before.dom()
    &&& forall|o: Seq<char>| before.contains_key(o) && o != k ==> #[trigger] after[o] == before[o]
    &&& after[k].data == before[k].data
    &&& after[k].luavm == before[k].luavm
    &&& after[k].serial == before[k].serial
}

/// The registry of the instance with serial number `s`.
pub open spec fn registry_of(m: Instances, s: u64) -> Plugin {
    m[name_of_serial(m, s)].plugin
}

impl LuaManager {
    /// Registers listener `id` for the named event kind in the instance with
    /// serial number `serial`. Returns whether the kind's notification source
    /// must now be armed for that instance.
    pub fn add_event_listener_with_id(&mut self, serial: u64, event_type: &str, id: u64) -> (r: Result<bool, PluginError>)
        requires
            old(self).wf(),
        ensures
            final(self).wf(),
            final(self).next_serial() == old(self).next_serial(),
            !serial_in(old(self).instances(), serial) ==> r == Err::<bool, PluginError>(PluginError::InstanceGone)
                && final(self).instances() == old(self).instances(),
            serial_in(old(self).instances(), serial) ==> match event_type_of(event_type@) {
                None => r == Err::<bool, PluginError>(PluginError::InvalidEventType)
                    && final(self).instances() == old(self).instances(),
                Some(kind) => r == Ok::<bool, PluginError>(!registry_of(old(self).instances(), serial).armed(kind))
                    && others_kept(old(self).instances(), final(self).instances(), serial)
                    && listener_added(registry_of(old(self).instances(), serial), registry_of(final(self).instances(), serial), kind, id),
            },
    {
        match self.find_serial(serial) {
            None => Err(PluginError::InstanceGone),
            Some(i) => {
                let ghost before = *self;
                let mut h = self.vm.remove(i);
                let res = h.plugin.add_event_listener_with_id(event_type, id);
                self.restore(i, h, Ghost(before));
                proof {
                    if res is Err {
                        assert(self.instances@ =~= before.instances@);
                    }
                }
                res
            },
        }
    }

    /// Registers a listener for the named event kind in the instance with
    /// serial number `serial`, under a freshly drawn random id.
    pub fn add_event_listener(&mut self, serial: u64, event_type: &str) -> (r: Result<Registration, PluginError>)
        requires
            old(self).wf(),
        ensures
            final(self).wf(),
            final(self).next_serial() == old(self).next_serial(),
            !serial_in(old(self).instances(), serial) ==> r == Err::<Registration, PluginError>(PluginError::InstanceGone)
                && final(self).instances() == old(self).instances(),
            serial_in(old(self).instances(), serial) ==> match event_type_of(event_type@) {
                None => r == Err::<Registration, PluginError>(PluginError::InvalidEventType)
                    && final(self).instances() == old(self).instances(),
                Some(kind) => r matches Ok(reg)
                    && reg.start_source == !registry_of(old(self).instances(), serial).armed(kind)
                    && others_kept(old(self).instances(), final(self).instances(), serial)
                    && listener_added(registry_of(old(self).instances(), serial), registry_of(final(self).instances(), serial), kind, reg.id),
            },
    {
        match self.find_serial(serial) {
            None => Err(PluginError::InstanceGone),
            Some(i) => {
                let ghost before = *self;
                let mut h = self.vm.remove(i);
                let res = h.plugin.add_event_listener(event_type);
                self.restore(i, h, Ghost(before));
                proof {
                    if res is Err {
                        assert(self.instances@ =~= before.instances@);
                    }
                }
                res
            },
        }
    }

    /// Registers interval listener `id` in the instance with serial number
    /// `serial`. Returns whether the ticker for that interval must now start.
    pub fn set_interval_with_id(&mut self, serial: u64, interval: u64, id: u64) -> (r: Result<bool, PluginError>)
        requires
            old(self).wf(),
        ensures
            final(self).wf(),
            final(self).next_serial() == old(self).next_serial(),
            !serial_in(old(self).instances(), serial) ==> r == Err::<bool, PluginError>(PluginError::InstanceGone)
                && final(self).instances() == old(self).instances(),
            serial_in(old(self).instances(), serial) && interval == 0 ==> r == Err::<bool, PluginError>(PluginError::InvalidInterval)
                && final(self).instances() == old(self).instances(),
            serial_in(old(self).instances(), serial) && interval != 0 ==>
                r == Ok::<bool, PluginError>(!registry_of(old(self).instances(), serial).intervals().contains_key(interval))
                && others_kept(old(self).instances(), final(self).instances(), serial)
                && interval_added(registry_of(old(self).instances(), serial), registry_of(final(self).instances(), serial), interval, id),
    {
        match self.find_serial(serial) {
            None => Err(PluginError::InstanceGone),
            Some(i) => {
                let ghost before = *self;
                let mut h = self.vm.remove(i);
                let res = h.plugin.set_interval_with_id(interval, id);
                self.restore(i, h, Ghost(before));
                proof {
                    if res is Err {
                        assert(self.instances@ =~= before.instances@);
                    }
                }
                res
            },
        }
    }

    /// Registers an interval listener in the instance with serial number
    /// `serial`, under a freshly drawn random id.
    pub fn set_interval(&mut self, serial: u64, interval: u64) -> (r: Result<Registration, PluginError>)
        requires
            old(self).wf(),
        ensures
            final(self).wf(),
            final(self).next_serial() == old(self).next_serial(),
            !serial_in(old(self).instances(), serial) ==> r == Err::<Registration, PluginError>(PluginError::InstanceGone)
                && final(self).instances() == old(self).instances(),
            serial_in(old(self).instances(), serial) && interval == 0 ==> r == Err::<Registration, PluginError>(PluginError::InvalidInterval)
                && final(self).instances() == old(self).instances(),
            serial_in(old(self).instances(), serial) && interval != 0 ==> (r matches Ok(reg)
                && reg.start_source == !registry_of(old(self).instances(), serial).intervals().contains_key(interval)
                && others_kept(old(self).instances(), final(self).instances(), serial)
                && interval_added(registry_of(old(self).instances(), serial), registry_of(final(self).instances(), serial), interval, reg.id)),
    {
        match self.find_serial(serial) {
            None => Err(PluginError::InstanceGone),
            Some(i) => {
                let ghost before = *self;
                let mut h = self.vm.remove(i);
                let res = h.plugin.set_interval(interval);
                self.restore(i, h, Ghost(before));
                proof {
                    if res is Err {
                        assert(self.instances@ =~= before.instances@);
                    }
                }
                res
            },
        }
    }

    /// The listeners, in registration order, that a notification of `kind`
    /// reaches through serial number `serial`: none once that instance is
    /// gone or while it is not running.
    pub fn dispatch_event_monster(&self, serial: u64, kind: EventType) -> (r: Vec<u64>)
        requires
            self.wf(),
        ensures
            r@ == event_targets(self.instances(), serial, kind),
    {
        match self.find_serial(serial) {
            None => Vec::new(),
            Some(i) => {
                proof {
                    self.lemma_instances();
                    assert(self.instances@.contains_key(self.vm@[i as int].data.name@));
                }
                let h = &self.vm[i];
                h.plugin.dispatch_event_monster(kind, Some(h.luavm.running_state))
            },
        }
    }

    /// What one tick of the ticker for `interval` started by the instance
    /// with serial number `serial` does: it ends once that instance is gone
    /// or not running.
    pub fn dispatch_set_interval(&self, serial: u64, interval: u64) -> (r: TickStep)
        requires
            self.wf(),
        ensures
            !serial_in(self.instances(), serial) ==> r == TickStep::Stop,
            serial_in(self.instances(), serial) ==> {
                let h = self.instances()[name_of_serial(self.instances(), serial)];
                if h.luavm.running_state == RinningState::Running {
                    r matches TickStep::Fire(ids) && ids@ == interval_listeners_for(h.plugin, interval)
                } else {
                    r == TickStep::Stop
                }
            },
    {
        match self.find_serial(serial) {
            None => TickStep::Stop,
            Some(i) => {
                proof {
                    self.lemma_instances();
                    assert(self.instances@.contains_key(self.vm@[i as int].data.name@));
                }
                let h = &self.vm[i];
                h.plugin.dispatch_set_interval(interval, Some(h.luavm.running_state))
            },
        }
    }

    /// The name and state of every instance.
    pub fn list_vms(&self) -> (r: Vec<(String, RinningState)>)
        requires
            self.wf(),
        ensures
            forall|j: int| 0 <= j < r@.len() ==> {
                &&& self.instances().contains_key(#[trigger] r@[j].0@)
                &&& self.instances()[r@[j].0@].luavm.running_state == r@[j].1
            },
            forall|k: Seq<char>| self.instances().contains_key(k) ==> exists|j: int| 0 <= j < r@.len() && #[trigger] r@[j].0@ == k,
            forall|a: int, b: int| 0 <= a < b < r@.len() ==> r@[a].0@ != r@[b].0@,
    {
        let mut out: Vec<(String, RinningState)> = Vec::new();
        let mut i: usize = 0;
        while i < self.vm.len()
            invariant
                self.wf(),
                i <= self.vm@.len(),
                out@.map_values(|p: (String, RinningState)| (p.0@, p.1)) == self.vm@.take(i as int).map_values(
                    |h: LuaHandler| (h.data.name@, h.luavm.running_state),
                ),
            decreases self.vm@.len() - i,
        {
            let name = self.vm[i].data.name.clone();
            assert(name == self.vm@[i as int].data.name);
            let ghost before = out@;
            let state = self.vm[i].luavm.running_state;
            out.push((name, state));
            proof {
                assert(self.vm@.take(i + 1) =~= self.vm@.take(i as int).push(self.vm@[i as int]));
                assert(out@ == before.push((name, state)));
                assert(out@.map_values(|p: (String, RinningState)| (p.0@, p.1)) =~= before.map_values(
                    |p: (String, RinningState)| (p.0@, p.1),
                ).push((name@, state)));
                assert(self.vm@.take(i + 1).map_values(|h: LuaHandler| (h.data.name@, h.luavm.running_state))
                    =~= self.vm@.take(i as int).map_values(|h: LuaHandler| (h.data.name@, h.luavm.running_state)).push(
                    (self.vm@[i as int].data.name@, self.vm@[i as int].luavm.running_state),
                ));
            }
            i = i + 1;
            assert(out@.map_values(|p: (String, RinningState)| (p.0@, p.1)) =~= self.vm@.take(i as int).map_values(
                |h: LuaHandler| (h.data.name@, h.luavm.running_state),
            ));
        }
        proof {
            assert(self.vm@.take(self.vm@.len() as int) =~= self.vm@);
            assert forall|j: int| 0 <= j < out@.len() implies #[trigger] out@[j].0@ == self.vm@[j].data.name@
                && out@[j].1 == self.vm@[j].luavm.running_state by {
                assert(out@.map_values(|p: (String, RinningState)| (p.0@, p.1))[j] == (out@[j].0@, out@[j].1));
            }
            assert forall|j: int| 0 <= j < out@.len() implies {
                &&& self.instances().contains_key(#[trigger] out@[j].0@)
                &&& self.instances()[out@[j].0@].luavm.running_state == out@[j].1
            } by {
                assert(self.instances@.contains_key(self.vm@[j].data.name@));
            }
            assert forall|k: Seq<char>| self.instances().contains_key(k) implies
                exists|j: int| 0 <= j < out@.len() && #[trigger] out@[j].0@ == k by {
                let j = choose|j: int| 0 <= j < self.vm@.len() && self.vm@[j].data.name@ == k;
                assert(out@[j].0@ == k);
            }
            assert forall|a: int, b: int| 0 <= a < b < out@.len() implies out@[a].0@ != out@[b].0@ by {
                assert(out@[a].0@ == self.vm@[a].data.name@);
                assert(out@[b].0@ == self.vm@[b].data.name@);
            }
        }
        out
    }
}


/// Every failed read is among the reported failures.
proof fn lemma_failed_read_reported(reads: Seq<ScriptRead>, i: int)
    requires
        0 <= i < reads.len(),
        reads[i].text is Err,
    ensures
        failed_reads(reads).contains((reads[i].name@, reads[i].text->Err_0@)),
    decreases reads.len(),
{
    let last = reads.len() - 1;
    if i == last {
        assert(failed_reads(reads) == failed_reads(reads.drop_last()).push((reads[i].name@, reads[i].text->Err_0@)));
        assert(failed_reads(reads)[failed_reads(reads).len() - 1] == (reads[i].name@, reads[i].text->Err_0@));
    } else {
        lemma_failed_read_reported(reads.drop_last(), i);
        let before = failed_reads(reads.drop_last());
        let j = choose|j: int| 0 <= j < before.len() && before[j] == (reads[i].name@, reads[i].text->Err_0@);
        assert(failed_reads(reads)[j] == before[j]);
    }
}

/// A notification reaches a listener that was just registered in a running
/// instance: the listeners reached through the instance's serial number are
/// the earlier ones followed by the new one.
pub proof fn lemma_registered_listener_reached(m0: LuaManager, m1: LuaManager, s: u64, kind: EventType, id: u64)
    requires
        m0.wf(),
        m1.wf(),
        serial_in(m0.instances(), s),
        m0.instances()[name_of_serial(m0.instances(), s)].luavm.running_state == RinningState::Running,
        others_kept(m0.instances(), m1.instances(), s),
        listener_added(registry_of(m0.instances(), s), registry_of(m1.instances(), s), kind, id),
    ensures
        event_targets(m1.instances(), s, kind) == event_targets(m0.instances(), s, kind).push(id),
{
    m0.lemma_instances();
    m1.lemma_instances();
    let k = name_of_serial(m0.instances(), s);
    assert(m1.instances().contains_key(k) && m1.instances()[k].serial == s);
    let k1 = name_of_serial(m1.instances(), s);
    assert(m1.instances()[k1].serial == m1.instances()[k].serial);
}

/// Once an instance is unloaded, nothing reaches it through its serial
/// number: notifications reach no listener and its tickers stop.
pub proof fn lemma_unloaded_instance_unreachable(m0: LuaManager, m1: LuaManager, name: Seq<char>, kind: EventType)
    requires
        m0.wf(),
        m0.instances().contains_key(name),
        m1.instances() == m0.instances().remove(name),
    ensures
        !serial_in(m1.instances(), m0.instances()[name].serial),
        event_targets(m1.instances(), m0.instances()[name].serial, kind) == Seq::<u64>::empty(),
{
    m0.lemma_instances();
    let s = m0.instances()[name].serial;
    if serial_in(m1.instances(), s) {
        let k = choose|k: Seq<char>| m1.instances().contains_key(k) && #[trigger] m1.instances()[k].serial == s;
        assert(m0.instances()[k].serial == m0.instances()[name].serial);
    }
}

/// Reloading an instance, then running it successfully, leaves exactly one
/// instance of that name, running the reloaded text, beside the unchanged
/// others; repeating this keeps it so.
pub proof fn lemma_reload_keeps_one_running(
    m0: Instances,
    m1: LuaManager,
    m2: Instances,
    name: Seq<char>,
    path: Seq<char>,
    text: Seq<char>,
    s: u64,
)
    requires
        m1.wf(),
        reloaded(m0, m1.instances(), name, path, text, s),
        marked_running(m1.instances(), m2, s),
    ensures
        m2.dom() == m0.dom().insert(name),
        m2[name].luavm.running_state == RinningState::Running,
        m2[name].serial == s,
        m2[name].data.script matches Some(t) && t@ == text,
        forall|o: Seq<char>| m0.contains_key(o) && o != name ==> #[trigger] m2[o] == m0[o],
{
    m1.lemma_instances();
    let k = name_of_serial(m1.instances(), s);
    assert(m1.instances()[k].serial == m1.instances()[name].serial);
}

/// Reloading everything with some reads failed: exactly the names with a
/// successful read are loaded, each with one ticket to run it, and every
/// failed read is reported; a name whose reads all failed is absent.
pub proof fn lemma_reload_all_isolates_failures(
    m1: LuaManager,
    reads: Seq<ScriptRead>,
    base: u64,
    failures: Seq<LoadFailure>,
    tickets: Seq<RunTicket>,
)
    requires
        m1.wf(),
        loaded_all(Instances::empty(), m1.instances(), reads, base),
        failure_view(failures) == failed_reads(reads),
        tickets_cover(m1.instances(), tickets),
    ensures
        forall|k: Seq<char>| #[trigger] m1.instances().contains_key(k) <==> has_ok_read(reads, k),
        forall|i: int| 0 <= i < reads.len() && #[trigger] reads[i].text is Err ==>
            failure_view(failures).contains((reads[i].name@, reads[i].text->Err_0@)),
        forall|i: int| 0 <= i < reads.len() && #[trigger] reads[i].text is Err && !has_ok_read(reads, reads[i].name@) ==>
            !m1.instances().contains_key(reads[i].name@),
        forall|k: Seq<char>| has_ok_read(reads, k) ==> exists|j: int| 0 <= j < tickets.len() && #[trigger] tickets[j].name@ == k
            && tickets[j].serial == m1.instances()[k].serial,
{
    assert forall|i: int| 0 <= i < reads.len() && #[trigger] reads[i].text is Err implies
        failure_view(failures).contains((reads[i].name@, reads[i].text->Err_0@)) by {
        lemma_failed_read_reported(reads, i);
    }
    assert forall|k: Seq<char>| has_ok_read(reads, k) implies exists|j: int| 0 <= j < tickets.len() && #[trigger] tickets[j].name@ == k
        && tickets[j].serial == m1.instances()[k].serial by {
        assert(m1.instances().contains_key(k));
        let j = choose|j: int| 0 <= j < tickets.len() && #[trigger] tickets[j].name@ == k;
        assert(tickets[j].serial == m1.instances()[k].serial);
    }
}


impl LuaManager {
    /// How many more instances can be numbered.
    pub fn serial_capacity(&self) -> (r: u64)
        ensures
            r == u64::MAX - self.next_serial(),
    {
        u64::MAX - self.next_serial
    }

    /// The serial number of the instance named `name`, if there is one.
    pub fn serial_of(&self, name: &str) -> (r: Option<u64>)
        requires
            self.wf(),
        ensures
            match r {
                None => !self.instances().contains_key(name@),
                Some(s) => self.instances().contains_key(name@) && self.instances()[name@].serial == s,
            },
    {
        match self.find_name(name) {
            None => None,
            Some(i) => {
                proof {
                    assert(self.instances@.contains_key(self.vm@[i as int].data.name@));
                }
                Some(self.vm[i].serial)
            },
        }
    }
}

/// A name with a successful read has a last successful read.
proof fn lemma_last_ok_read_exists(reads: Seq<ScriptRead>, k: Seq<char>)
    requires
        has_ok_read(reads, k),
    ensures
        exists|i: int| #[trigger] is_last_ok_read(reads, i, k),
    decreases reads.len(),
{
    let n = reads.len() - 1;
    if reads[n].name@ == k && reads[n].text is Ok {
        assert(is_last_ok_read(reads, n, k));
    } else {
        let i = choose|i: int| 0 <= i < reads.len() && #[trigger] reads[i].name@ == k && reads[i].text is Ok;
        assert(reads.drop_last()[i].name@ == k);
        lemma_last_ok_read_exists(reads.drop_last(), k);
        let l = choose|l: int| #[trigger] is_last_ok_read(reads.drop_last(), l, k);
        assert forall|m: int| l < m < reads.len() implies !(#[trigger] reads[m].name@ == k && reads[m].text is Ok) by {
            if m < n {
                assert(reads.drop_last()[m] == reads[m]);
            }
        }
        assert(is_last_ok_read(reads, l, k));
    }
}

/// After reloading everything, a script whose top-level code faults in its
/// first run is gone: every instance is loaded but not yet running, so the
/// fault that `finish_run` records for its ticket removes it, and only it.
pub proof fn lemma_faulting_script_absent(
    m1: LuaManager,
    reads: Seq<ScriptRead>,
    base: u64,
    tickets: Seq<RunTicket>,
    j: int,
    m2: Instances,
)
    requires
        m1.wf(),
        loaded_all(Instances::empty(), m1.instances(), reads, base),
        tickets_cover(m1.instances(), tickets),
        0 <= j < tickets.len(),
        m2 == (if m1.instances()[name_of_serial(m1.instances(), tickets[j].serial)].luavm.running_state
            == RinningState::Running {
            m1.instances()
        } else {
            m1.instances().remove(name_of_serial(m1.instances(), tickets[j].serial))
        }),
    ensures
        forall|k: Seq<char>| #[trigger] m1.instances().contains_key(k) ==> m1.instances()[k].luavm.running_state
            == RinningState::Loaded,
        !m2.contains_key(tickets[j].name@),
        m2 == m1.instances().remove(tickets[j].name@),
{
    m1.lemma_instances();
    assert forall|k: Seq<char>| #[trigger] m1.instances().contains_key(k) implies m1.instances()[k].luavm.running_state
        == RinningState::Loaded by {
        lemma_last_ok_read_exists(reads, k);
        let i = choose|i: int| #[trigger] is_last_ok_read(reads, i, k);
        assert(m1.instances()[k].is_fresh_load(k, reads[i].path@, reads[i].text->Ok_0@, (base + i) as u64));
    }
    let name = tickets[j].name@;
    assert(m1.instances().contains_key(name));
    assert(serial_in(m1.instances(), tickets[j].serial));
    let c = name_of_serial(m1.instances(), tickets[j].serial);
    assert(m1.instances()[c].serial == m1.instances()[name].serial);
}

} // verus!
