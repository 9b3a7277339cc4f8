use vstd::prelude::*;
use vstd::string::*;

verus! {

/// The kind of a laundry machine.
#[derive(Debug, PartialEq, Eq, Structural, Copy, Clone)]
pub enum MachineType {
    Washer,
    Dryer,
}

/// One machine as the laundry room reports it: the state text of each of its
/// two slots and its appliance code.
pub struct LaundryMachine {
    pub time_left_lite: Option<String>,
    pub time_left_lite2: Option<String>,
    pub appliance_type: Option<String>,
}

/// The machines of a laundry room.
pub struct LaundryView {
    pub machines: Vec<LaundryMachine>,
}

/// How many washer and dryer slots are free.
#[derive(Debug, PartialEq, Eq, Structural, Copy, Clone)]
pub struct LaundryStatus {
    pub washers: u8,
    pub dryers: u8,
}

/// The kind named by an appliance code: "W" for a washer, "D" for a dryer.
pub open spec fn machine_type(m: LaundryMachine) -> Option<MachineType> {
    match m.appliance_type {
        Some(t) => if t@ == "W"@ {
            Some(MachineType::Washer)
        } else if t@ == "D"@ {
            Some(MachineType::Dryer)
        } else {
            None
        },
        None => None,
    }
}

/// A slot is free when its state text is "Available".
pub open spec fn slot_available(slot: Option<String>) -> bool {
    match slot {
        Some(t) => t@ == "Available"@,
        None => false,
    }
}

/// The number of free slots of a machine.
pub open spec fn availability(m: LaundryMachine) -> nat {
    (if slot_available(m.time_left_lite) {
        1nat
    } else {
        0nat
    }) + (if slot_available(m.time_left_lite2) {
        1nat
    } else {
        0nat
    })
}

/// The free slots that a machine adds to the count of the given kind.
pub open spec fn slot_share(m: LaundryMachine, kind: MachineType) -> nat {
    if machine_type(m) == Some(kind) {
        availability(m)
    } else {
        0
    }
}

/// The number of free slots over the machines of the given kind.
pub open spec fn free_slots(machines: Seq<LaundryMachine>, kind: MachineType) -> nat
    decreases machines.len(),
{
    if machines.len() == 0 {
        0
    } else {
        free_slots(machines.drop_last(), kind) + slot_share(machines.last(), kind)
    }
}

proof fn lemma_free_slots_remove(machines: Seq<LaundryMachine>, kind: MachineType, i: int)
    requires
        0 <= i < machines.len(),
    ensures
        free_slots(machines, kind) == slot_share(machines[i], kind) + free_slots(
            machines.remove(i),
            kind,
        ),
    decreases machines.len(),
{
    if i == machines.len() - 1 {
        assert(machines.remove(i) =~= machines.drop_last());
    } else {
        let init = machines.drop_last();
        lemma_free_slots_remove(init, kind, i);
        assert(init.remove(i) =~= machines.remove(i).drop_last());
        assert(machines.remove(i).last() == machines.last());
    }
}

proof fn lemma_free_slots_permutation(a: Seq<LaundryMachine>, b: Seq<LaundryMachine>, kind: MachineType)
    requires
        a.to_multiset() == b.to_multiset(),
    ensures
        free_slots(a, kind) == free_slots(b, kind),
    decreases a.len(),
{
    broadcast use vstd::seq_lib::group_to_multiset_ensures;

    if a.len() == 0 {
        assert(b.to_multiset().len() == 0);
        assert(b =~= Seq::<LaundryMachine>::empty());
    } else {
        let x = a.last();
        let init = a.drop_last();
        assert(init.push(x) =~= a);
        assert(a.to_multiset() =~= init.to_multiset().insert(x));
        assert(b.to_multiset().count(x) > 0);
        assert(b.contains(x));
        let j = choose|j: int| 0 <= j < b.len() && b[j] == x;
        assert(b.remove(j).to_multiset() =~= b.to_multiset().remove(x));
        assert(init.to_multiset() =~= a.to_multiset().remove(x));
        lemma_free_slots_permutation(init, b.remove(j), kind);
        lemma_free_slots_remove(b, kind, j);
    }
}

proof fn lemma_free_slots_concat(a: Seq<LaundryMachine>, extra: Seq<LaundryMachine>, kind: MachineType)
    requires
        forall|i: int| 0 <= i < extra.len() ==> machine_type(#[trigger] extra[i]) is None,
    ensures
        free_slots(a + extra, kind) == free_slots(a, kind),
    decreases extra.len(),
{
    if extra.len() == 0 {
        assert(a + extra =~= a);
    } else {
        let init = extra.drop_last();
        assert((a + extra).drop_last() =~= a + init);
        assert((a + extra).last() == extra.last());
        assert(machine_type(extra[extra.len() - 1]) is None);
        lemma_free_slots_concat(a, init, kind);
    }
}

/// The free washer and dryer counts do not depend on the order of the
/// machines, nor on machines whose appliance code is neither "W" nor "D":
/// when `b` holds the machines of `a` and of `extra` in any order, and every
/// machine of `extra` is of no known kind, `b` has the counts of `a`.
pub proof fn law_status_ignores_order_and_other_kinds(
    a: Seq<LaundryMachine>,
    extra: Seq<LaundryMachine>,
    b: Seq<LaundryMachine>,
)
    requires
        forall|i: int| 0 <= i < extra.len() ==> machine_type(#[trigger] extra[i]) is None,
        b.to_multiset() == a.to_multiset().add(extra.to_multiset()),
    ensures
        free_slots(b, MachineType::Washer) == free_slots(a, MachineType::Washer),
        free_slots(b, MachineType::Dryer) == free_slots(a, MachineType::Dryer),
{
    vstd::seq_lib::lemma_multiset_commutative(a, extra);
    lemma_free_slots_permutation(a + extra, b, MachineType::Washer);
    lemma_free_slots_permutation(a + extra, b, MachineType::Dryer);
    lemma_free_slots_concat(a, extra, MachineType::Washer);
    lemma_free_slots_concat(a, extra, MachineType::Dryer);
}

proof fn lemma_free_slots_monotone(machines: Seq<LaundryMachine>, kind: MachineType, k: int)
    requires
        0 <= k <= machines.len(),
    ensures
        free_slots(machines.take(k), kind) <= free_slots(machines, kind),
    decreases machines.len(),
{
    if k < machines.len() {
        let init = machines.drop_last();
        assert(init.take(k) =~= machines.take(k));
        lemma_free_slots_monotone(init, kind, k);
    } else {
        assert(machines.take(k) =~= machines);
    }
}

/// Whether a slot's state text says it is free.
fn slot_is_available(slot: &Option<String>) -> (res: bool)
    ensures
        res == slot_available(*slot),
{
    match slot {
        Some(t) => {
            let available = String::from_str("Available");
            *t == available
        },
        None => false,
    }
}

impl LaundryMachine {
    /// The kind of the machine, from its appliance code.
    pub fn which_type(&self) -> (res: Option<MachineType>)
        ensures
            res == machine_type(*self),
    {
        match &self.appliance_type {
            Some(t) => {
                let washer = String::from_str("W");
                let dryer = String::from_str("D");
                if *t == washer {
                    Some(MachineType::Washer)
                } else if *t == dryer {
                    Some(MachineType::Dryer)
                } else {
                    None
                }
            },
            None => None,
        }
    }

    /// The number of the machine's free slots.
    pub fn get_availability(&self) -> (count: u8)
        ensures
            count as nat == availability(*self),
    {
        let mut count: u8 = 0;
        if slot_is_available(&self.time_left_lite) {
            count += 1;
        }
        if slot_is_available(&self.time_left_lite2) {
            count += 1;
        }
        count
    }
}

impl LaundryView {
    /// The view made from the parsed room data, or the parse error with the
    /// message that explains it.
    pub fn new(parsed: Result<LaundryView, String>) -> (res: Result<LaundryView, String>)
        ensures
            match parsed {
                Ok(view) => res == Ok::<LaundryView, String>(view),
                Err(e) => res matches Err(msg) && msg@
                    == "Error creating Laundry View: couldn't parse jsoni "@ + e@,
            },
    {
        match parsed {
            Ok(view) => Ok(view),
            Err(e) => {
                let err = String::from_str("Error creating Laundry View: couldn't parse jsoni ");
                Err(err.concat(e.as_str()))
            },
        }
    }

    /// Replaces the machines with freshly parsed room data; on a parse error
    /// the view is left unchanged and the error is explained.
    pub fn update(&mut self, parsed: Result<LaundryView, String>) -> (res: Result<(), String>)
        ensures
            match parsed {
                Ok(view) => res is Ok && final(self).machines@ == view.machines@,
                Err(e) => res matches Err(msg) && msg@
                    == "Error updating Laundry View: couldn't parse json "@ + e@
                    && final(self).machines@ == old(self).machines@,
            },
    {
        match parsed {
            Ok(new_view) => {
                self.machines = new_view.machines;
                Ok(())
            },
            Err(e) => {
                let err = String::from_str("Error updating Laundry View: couldn't parse json ");
                Err(err.concat(e.as_str()))
            },
        }
    }

    /// The free washer and dryer slots over all machines.
    pub fn get_status(&self) -> (status: LaundryStatus)
        requires
            free_slots(self.machines@, MachineType::Washer) <= 255,
            free_slots(self.machines@, MachineType::Dryer) <= 255,
        ensures
            status.washers as nat == free_slots(self.machines@, MachineType::Washer),
            status.dryers as nat == free_slots(self.machines@, MachineType::Dryer),
    {
        let mut washers: u8 = 0;
        let mut dryers: u8 = 0;
        let mut i: usize = 0;
        let ghost ms = self.machines@;
        while i < self.machines.len()
            invariant
                ms == self.machines@,
                i <= ms.len(),
                free_slots(ms, MachineType::Washer) <= 255,
                free_slots(ms, MachineType::Dryer) <= 255,
                washers as nat == free_slots(ms.take(i as int), MachineType::Washer),
                dryers as nat == free_slots(ms.take(i as int), MachineType::Dryer),
            decreases ms.len() - i,
        {
            let m = &self.machines[i];
            proof {
                let next = ms.take(i + 1);
                assert(next.drop_last() =~= ms.take(i as int));
                assert(next.last() == *m);
                lemma_free_slots_monotone(ms, MachineType::Washer, i + 1);
                lemma_free_slots_monotone(ms, MachineType::Dryer, i + 1);
            }
            match m.which_type() {
                Some(MachineType::Washer) => {
                    washers += m.get_availability();
                },
                Some(MachineType::Dryer) => {
                    dryers += m.get_availability();
                },
                _ => {},
            }
            i = i + 1;
        }
        assert(ms.take(ms.len() as int) =~= ms);
        LaundryStatus::new(washers, dryers)
    }
}

impl LaundryStatus {
    /// The status with the given free slot counts.
    pub fn new(washers: u8, dryers: u8) -> (status: LaundryStatus)
        ensures
            status.washers == washers,
            status.dryers == dryers,
    {
        LaundryStatus { washers, dryers }
    }
}

} // verus!
