//! Measurements of an engine under names, in the order of the names: sums and lists.

use vstd::prelude::*;

use crate::engine::{record_telemetry, TelemetrySwitch};
use crate::scalar::Scalar;
use crate::text::{law_precedes_is_an_order, precedes, str_eq, str_precedes};

verus! {

/// What is kept under a name: a sum, or one measurement per call.
pub enum TelemetryValue<S> {
    Scalar(S),
    List(Vec<S>),
}

/// What is kept under a name.
pub enum TelemetryView<S> {
    Scalar(S),
    List(Seq<S>),
}

impl<S> View for TelemetryValue<S> {
    type V = TelemetryView<S>;

    open spec fn view(&self) -> TelemetryView<S> {
        match self {
            TelemetryValue::Scalar(v) => TelemetryView::Scalar(*v),
            TelemetryValue::List(l) => TelemetryView::List(l@),
        }
    }
}

/// Measurements, each name once and in order.
pub struct Telemetry<S> {
    pub entries: Vec<(String, TelemetryValue<S>)>,
}

impl<S: Scalar> Telemetry<S> {
    /// The name at place `i`.
    pub open spec fn name(self, i: int) -> Seq<char> {
        self.entries@[i].0@
    }

    /// The names are in order, so each occurs once.
    pub open spec fn wf(self) -> bool {
        forall|i: int, j: int|
            0 <= i < j < self.entries@.len() ==> precedes(
                #[trigger] self.name(i),
                #[trigger] self.name(j),
            )
    }

    /// The name is at place `i`.
    pub open spec fn at(self, key: Seq<char>, i: int) -> bool {
        0 <= i < self.entries@.len() && self.name(i) == key
    }

    /// What is kept under a name.
    pub open spec fn get(self, key: Seq<char>) -> Option<TelemetryView<S>> {
        if exists|i: int| self.at(key, i) {
            Some(self.entries@[choose|i: int| self.at(key, i)].1@)
        } else {
            None
        }
    }

    /// Nothing was measured.
    pub fn new() -> (r: Self)
        ensures
            r.wf(),
            forall|key: Seq<char>| #[trigger] r.get(key) is None,
    {
        Telemetry { entries: Vec::new() }
    }

    /// The place of a name, or the place that it is to have.
    fn find(&self, key: &str) -> (r: Result<usize, usize>)
        requires
            self.wf(),
        ensures
            match r {
                Ok(i) => self.at(key@, i as int),
                Err(i) => {
                    &&& i <= self.entries@.len()
                    &&& forall|j: int| 0 <= j < i ==> precedes(#[trigger] self.name(j), key@)
                    &&& forall|j: int|
                        i <= j < self.entries@.len() ==> precedes(key@, #[trigger] self.name(j))
                },
            },
    {
        let n: usize = self.entries.len();
        for i in 0..n
            invariant
                n == self.entries@.len(),
                self.wf(),
                forall|j: int| 0 <= j < i ==> precedes(#[trigger] self.name(j), key@),
        {
            let name: &str = self.entries[i].0.as_str();
            if str_eq(name, key) {
                return Ok(i);
            }
            if !str_precedes(name, key) {
                proof {
                    let first = self.name(i as int);
                    law_precedes_is_an_order(key@, first, first);
                    assert forall|j: int| i <= j < self.entries@.len() implies precedes(
                        key@,
                        #[trigger] self.name(j),
                    ) by {
                        law_precedes_is_an_order(key@, first, self.name(j));
                    }
                }
                return Err(i);
            }
        }
        Err(n)
    }

    proof fn lemma_get(self, key: Seq<char>, i: int)
        requires
            self.wf(),
            self.at(key, i),
        ensures
            self.get(key) == Some(self.entries@[i].1@),
    {
        let j = choose|j: int| self.at(key, j);
        assert(self.at(key, j));
        law_precedes_is_an_order(key, key, key);
        if i < j {
            assert(precedes(self.name(i), self.name(j)));
        } else if j < i {
            assert(precedes(self.name(j), self.name(i)));
        }
    }

    /// The entries stay the same but for what is under `key`.
    pub open spec fn keeps_others(self, before: Self, key: Seq<char>) -> bool {
        forall|other: Seq<char>| other != key ==> #[trigger] self.get(other) == before.get(other)
    }

    proof fn lemma_set(self, before: Self, key: Seq<char>, i: int)
        requires
            before.wf(),
            before.at(key, i),
            self.entries@.len() == before.entries@.len(),
            forall|j: int|
                0 <= j < before.entries@.len() ==> #[trigger] self.name(j) == before.name(j),
            forall|j: int|
                0 <= j < before.entries@.len() && j != i ==> #[trigger] self.entries@[j]
                    == before.entries@[j],
        ensures
            self.wf(),
            self.get(key) == Some(self.entries@[i].1@),
            self.keeps_others(before, key),
    {
        assert(self.wf()) by {
            assert forall|a: int, b: int| 0 <= a < b < self.entries@.len() implies precedes(
                #[trigger] self.name(a),
                #[trigger] self.name(b),
            ) by {
                assert(precedes(before.name(a), before.name(b)));
            }
        }
        assert(self.name(i) == before.name(i));
        self.lemma_get(key, i);
        assert forall|other: Seq<char>| other != key implies #[trigger] self.get(other)
            == before.get(other) by {
            if exists|j: int| self.at(other, j) {
                let j = choose|j: int| self.at(other, j);
                assert(self.name(j) == before.name(j));
                assert(before.at(other, j));
                self.lemma_get(other, j);
                before.lemma_get(other, j);
            } else {
                assert forall|j: int| !before.at(other, j) by {
                    if before.at(other, j) {
                        assert(self.name(j) == before.name(j));
                        assert(self.at(other, j));
                    }
                }
            }
        }
    }

    proof fn lemma_insert(self, before: Self, key: Seq<char>, i: int)
        requires
            before.wf(),
            0 <= i <= before.entries@.len(),
            forall|j: int| 0 <= j < i ==> precedes(#[trigger] before.name(j), key),
            forall|j: int|
                i <= j < before.entries@.len() ==> precedes(key, #[trigger] before.name(j)),
            self.entries@.len() == before.entries@.len() + 1,
            self.name(i) == key,
            self.entries@ == before.entries@.insert(i, self.entries@[i]),
        ensures
            self.wf(),
            before.get(key) is None,
            self.get(key) == Some(self.entries@[i].1@),
            self.keeps_others(before, key),
    {
        let n = before.entries@.len() as int;
        assert forall|j: int| 0 <= j < i implies #[trigger] self.name(j) == before.name(j) by {}
        assert forall|j: int| i <= j < n implies self.name(j + 1) == #[trigger] before.name(
            j,
        ) by {}
        assert(self.wf()) by {
            assert forall|a: int, b: int| 0 <= a < b < self.entries@.len() implies precedes(
                #[trigger] self.name(a),
                #[trigger] self.name(b),
            ) by {
                let x = if a < i {
                    a
                } else {
                    a - 1
                };
                let y = if b < i {
                    b
                } else {
                    b - 1
                };
                assert(a != i ==> self.name(a) == before.name(x));
                assert(b != i ==> self.name(b) == before.name(y));
                if a != i && b != i {
                    assert(precedes(before.name(x), before.name(y)));
                }
            }
        }
        law_precedes_is_an_order(key, key, key);
        assert forall|j: int| !before.at(key, j) by {
            if before.at(key, j) {
                assert(before.name(j) == key);
            }
        }
        assert(self.at(key, i));
        self.lemma_get(key, i);
        assert forall|other: Seq<char>| other != key implies #[trigger] self.get(other)
            == before.get(other) by {
            if exists|j: int| self.at(other, j) {
                let j = choose|j: int| self.at(other, j);
                let x = if j < i {
                    j
                } else {
                    j - 1
                };
                assert(self.entries@[j] == before.entries@[x]);
                assert(before.at(other, x));
                self.lemma_get(other, j);
                before.lemma_get(other, x);
            } else {
                assert forall|j: int| !before.at(other, j) by {
                    if before.at(other, j) {
                        let x = if j < i {
                            j
                        } else {
                            j + 1
                        };
                        assert(self.entries@[x] == before.entries@[j]);
                        assert(self.at(other, x));
                    }
                }
            }
        }
    }
}

/// Add a measurement to the sum under a name, if telemetry is recorded; a list stays as it is.
pub fn timing_add<S: Scalar>(switch: &TelemetrySwitch, tm: &mut Telemetry<S>, key: &str, dt: S)
    requires
        old(tm).wf(),
    ensures
        final(tm).wf(),
        !switch.on ==> *final(tm) == *old(tm),
        switch.on ==> {
            &&& final(tm).get(key@) == Some(
                match old(tm).get(key@) {
                    None => TelemetryView::Scalar(dt),
                    Some(TelemetryView::Scalar(v)) => TelemetryView::Scalar(v.s_plus(dt)),
                    Some(TelemetryView::List(l)) => TelemetryView::List(l),
                },
            )
            &&& final(tm).keeps_others(*old(tm), key@)
        },
{
    if !record_telemetry(switch) {
        return;
    }
    let ghost before = *tm;
    match tm.find(key) {
        Ok(i) => {
            proof {
                before.lemma_get(key@, i as int);
            }
            if let TelemetryValue::Scalar(v) = &tm.entries[i].1 {
                let sum: S = v.plus(&dt);
                tm.entries.set(i, (key.to_owned(), TelemetryValue::Scalar(sum)));
            }
            proof {
                tm.lemma_set(before, key@, i as int);
            }
        },
        Err(i) => {
            tm.entries.insert(i, (key.to_owned(), TelemetryValue::Scalar(dt)));
            proof {
                tm.lemma_insert(before, key@, i as int);
            }
        },
    }
}

/// Append a measurement to the list under a name, if telemetry is recorded; a sum stays as it
/// is.
pub fn timing_push<S: Scalar>(switch: &TelemetrySwitch, tm: &mut Telemetry<S>, key: &str, dt: S)
    requires
        old(tm).wf(),
    ensures
        final(tm).wf(),
        !switch.on ==> *final(tm) == *old(tm),
        switch.on ==> {
            &&& final(tm).get(key@) == Some(
                match old(tm).get(key@) {
                    None => TelemetryView::List(seq![dt]),
                    Some(TelemetryView::Scalar(v)) => TelemetryView::Scalar(v),
                    Some(TelemetryView::List(l)) => TelemetryView::List(l.push(dt)),
                },
            )
            &&& final(tm).keeps_others(*old(tm), key@)
        },
{
    if !record_telemetry(switch) {
        return;
    }
    let ghost before = *tm;
    match tm.find(key) {
        Ok(i) => {
            proof {
                before.lemma_get(key@, i as int);
            }
            if let TelemetryValue::List(l) = &mut tm.entries[i].1 {
                l.push(dt);
            }
            proof {
                tm.lemma_set(before, key@, i as int);
            }
        },
        Err(i) => {
            let mut list: Vec<S> = Vec::new();
            list.push(dt);
            assert(list@ =~= seq![dt]);
            tm.entries.insert(i, (key.to_owned(), TelemetryValue::List(list)));
            proof {
                tm.lemma_insert(before, key@, i as int);
            }
        },
    }
}

/// What is kept under a name is the value of the entry that has the name, wherever it stands; a
/// name that no entry has keeps nothing.
pub proof fn law_entry_found<S: Scalar>(tm: Telemetry<S>, key: Seq<char>, i: int)
    requires
        tm.wf(),
    ensures
        0 <= i < tm.entries@.len() && tm.entries@[i].0@ == key ==> tm.get(key) == Some(
            tm.entries@[i].1@,
        ),
        (forall|j: int| 0 <= j < tm.entries@.len() ==> #[trigger] tm.name(j) != key) ==> tm.get(
            key,
        ) is None,
{
    if 0 <= i < tm.entries@.len() && tm.entries@[i].0@ == key {
        tm.lemma_get(key, i);
    }
}

} // verus!
