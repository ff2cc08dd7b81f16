//! What a batch run gives: one record for each image that was classified,
//! found by the file's name, and the statistics of the run.

use vstd::prelude::*;
use crate::error::EngineError;
use crate::ranking::{InferenceResult, RankedClass};

verus! {

/// A fraction of two natural numbers; the denominator is never zero.
#[derive(Debug, Clone, Copy, PartialEq, Eq, Structural)]
pub struct Ratio {
    pub numerator: u128,
    pub denominator: u128,
}

/// Statistics of one batch run. Times are whole microseconds; the average
/// time of an image, in milliseconds, and the images per second are kept as
/// exact fractions.
#[derive(Debug, Clone, Copy, PartialEq, Eq, Structural)]
pub struct InferenceStats {
    pub total_images: usize,
    pub successful_images: usize,
    pub total_time_us: u128,
    pub average_time_ms: Ratio,
    pub fps: Ratio,
}

/// The average time of an image in milliseconds: the total time by the
/// number of images, and zero where there is none.
pub open spec fn average_time_ms(successful_images: nat, total_time_us: nat) -> (nat, nat) {
    if successful_images > 0 {
        (total_time_us, 1000 * successful_images)
    } else {
        (0, 1)
    }
}

/// Images per second: `1000 * successful_images / total_time_ms`, and zero
/// where no time has passed.
pub open spec fn frames_per_second(successful_images: nat, total_time_us: nat) -> (nat, nat) {
    if total_time_us > 0 {
        (1_000_000 * successful_images, total_time_us)
    } else {
        (0, 1)
    }
}

impl Ratio {
    /// Numerator and denominator.
    pub open spec fn view(&self) -> (nat, nat) {
        (self.numerator as nat, self.denominator as nat)
    }

    /// The denominator is not zero.
    pub open spec fn wf(&self) -> bool {
        self.denominator > 0
    }
}

impl InferenceStats {
    /// Average and rate are what the counts and the total time give.
    pub open spec fn wf(&self) -> bool {
        &&& self.average_time_ms.wf()
        &&& self.fps.wf()
        &&& self.average_time_ms@ == average_time_ms(
            self.successful_images as nat,
            self.total_time_us as nat,
        )
        &&& self.fps@ == frames_per_second(self.successful_images as nat, self.total_time_us as nat)
    }

    /// The statistics of a run that found `total_images` images and
    /// classified `successful_images` of them in `total_time_us`
    /// microseconds.
    pub fn summarize(
        total_images: usize,
        successful_images: usize,
        total_time_us: u128,
    ) -> (stats: InferenceStats)
        ensures
            stats.wf(),
            stats.total_images == total_images,
            stats.successful_images == successful_images,
            stats.total_time_us == total_time_us,
    {
        let average_time_ms = if successful_images > 0 {
            Ratio { numerator: total_time_us, denominator: 1000 * (successful_images as u128) }
        } else {
            Ratio { numerator: 0, denominator: 1 }
        };
        let fps = if total_time_us > 0 {
            Ratio { numerator: 1_000_000 * (successful_images as u128), denominator: total_time_us }
        } else {
            Ratio { numerator: 0, denominator: 1 }
        };
        InferenceStats { total_images, successful_images, total_time_us, average_time_ms, fps }
    }
}

/// The best class of one image of a batch run, and the time it took.
#[derive(Debug)]
pub struct BatchResult {
    pub image_name: String,
    pub result: InferenceResult,
    pub inference_time_us: u64,
}

/// What a `BatchResult` stands for.
pub struct BatchRecord {
    pub image_name: Seq<char>,
    pub result: RankedClass,
    pub inference_time_us: nat,
}

impl View for BatchResult {
    type V = BatchRecord;

    open spec fn view(&self) -> BatchRecord {
        BatchRecord {
            image_name: self.image_name@,
            result: self.result@,
            inference_time_us: self.inference_time_us as nat,
        }
    }
}

impl Clone for BatchResult {
    fn clone(&self) -> (copy: Self)
        ensures
            copy@ == self@,
    {
        BatchResult {
            image_name: self.image_name.clone(),
            result: self.result.clone(),
            inference_time_us: self.inference_time_us,
        }
    }
}

/// The records by name, where a later record replaces an earlier one of the
/// same name.
pub open spec fn record_map(records: Seq<BatchRecord>) -> Map<Seq<char>, BatchRecord>
    decreases records.len(),
{
    if records.len() == 0 {
        Map::empty()
    } else {
        record_map(records.drop_last()).insert(records.last().image_name, records.last())
    }
}

/// No two records have the same name.
pub open spec fn distinct_names(records: Seq<BatchRecord>) -> bool {
    forall|i: int, j: int|
        0 <= i < j < records.len() ==> (#[trigger] records[i]).image_name != (
        #[trigger] records[j]).image_name
}

/// The names of the records, in their order.
pub open spec fn record_names(records: Seq<BatchRecord>) -> Seq<Seq<char>> {
    Seq::new(records.len(), |i: int| records[i].image_name)
}

/// The sum of the times of the records.
pub open spec fn total_time(records: Seq<BatchRecord>) -> nat
    decreases records.len(),
{
    if records.len() == 0 {
        0
    } else {
        total_time(records.drop_last()) + records.last().inference_time_us
    }
}

/// The names of a map of records are the names of the records, and the map
/// is finite.
pub proof fn lemma_record_map_names(records: Seq<BatchRecord>)
    ensures
        record_map(records).dom().finite(),
        forall|name: Seq<char>| #[trigger]
            record_map(records).contains_key(name) <==> exists|i: int|
                0 <= i < records.len() && (#[trigger] records[i]).image_name == name,
    decreases records.len(),
{
    if records.len() > 0 {
        let front = records.drop_last();
        lemma_record_map_names(front);
        assert forall|name: Seq<char>| #[trigger]
            record_map(records).contains_key(name) implies exists|i: int|
            0 <= i < records.len() && (#[trigger] records[i]).image_name == name by {
            if name == records.last().image_name {
                assert(records[records.len() - 1].image_name == name);
            } else {
                assert(record_map(front).contains_key(name));
                let i = choose|i: int| 0 <= i < front.len() && (#[trigger] front[i]).image_name == name;
                assert(records[i].image_name == name);
            }
        }
        assert forall|name: Seq<char>|
            (exists|i: int|
                0 <= i < records.len() && (#[trigger] records[i]).image_name == name) implies #[trigger]
            record_map(records).contains_key(name) by {
            let i = choose|i: int| 0 <= i < records.len() && (#[trigger] records[i]).image_name == name;
            if i < front.len() {
                assert(front[i].image_name == name);
            }
        }
    }
}

/// Where no two records have the same name, each record is what the map
/// holds under its name, and the map has as many entries as there are
/// records.
pub proof fn lemma_record_map_distinct(records: Seq<BatchRecord>)
    requires
        distinct_names(records),
    ensures
        record_map(records).dom().finite(),
        record_map(records).dom().len() == records.len(),
        forall|i: int|
            0 <= i < records.len() ==> record_map(records).contains_key(
                (#[trigger] records[i]).image_name,
            ) && record_map(records)[records[i].image_name] == records[i],
    decreases records.len(),
{
    if records.len() > 0 {
        let front = records.drop_last();
        let last = records.last();
        assert forall|i: int, j: int| 0 <= i < j < front.len() implies (#[trigger] front[i]).image_name
            != (#[trigger] front[j]).image_name by {
            assert(front[i] == records[i] && front[j] == records[j]);
        }
        lemma_record_map_distinct(front);
        lemma_record_map_names(front);
        if record_map(front).contains_key(last.image_name) {
            let i = choose|i: int|
                0 <= i < front.len() && (#[trigger] front[i]).image_name == last.image_name;
            assert(records[i].image_name == records[records.len() - 1].image_name);
            assert(false);
        }
        assert forall|i: int| 0 <= i < records.len() implies record_map(records).contains_key(
            (#[trigger] records[i]).image_name,
        ) && record_map(records)[records[i].image_name] == records[i] by {
            if i < front.len() {
                assert(front[i] == records[i]);
                assert(records[i].image_name != records[records.len() - 1].image_name);
            }
        }
    }
}

/// Replacing a record by one of the same name replaces what the map holds
/// under that name, where no two records have the same name.
pub proof fn lemma_record_map_update(records: Seq<BatchRecord>, at: int, record: BatchRecord)
    requires
        distinct_names(records),
        0 <= at < records.len(),
        records[at].image_name == record.image_name,
    ensures
        distinct_names(records.update(at, record)),
        record_map(records.update(at, record)) == record_map(records).insert(
            record.image_name,
            record,
        ),
{
    let updated = records.update(at, record);
    assert forall|i: int, j: int| 0 <= i < j < updated.len() implies (#[trigger] updated[i]).image_name
        != (#[trigger] updated[j]).image_name by {
        assert(records[i].image_name != records[j].image_name);
    }
    lemma_record_map_distinct(records);
    lemma_record_map_distinct(updated);
    lemma_record_map_names(records);
    lemma_record_map_names(updated);
    let a = record_map(updated);
    let b = record_map(records).insert(record.image_name, record);
    assert forall|name: Seq<char>| a.contains_key(name) <==> b.contains_key(name) by {
        if a.contains_key(name) {
            let i = choose|i: int| 0 <= i < updated.len() && (#[trigger] updated[i]).image_name == name;
            assert(records[i].image_name == name);
        }
        if b.contains_key(name) && name != record.image_name {
            let i = choose|i: int| 0 <= i < records.len() && (#[trigger] records[i]).image_name == name;
            assert(updated[i].image_name == name);
        }
        if name == record.image_name {
            assert(updated[at].image_name == name);
        }
    }
    assert forall|name: Seq<char>| a.contains_key(name) implies a[name] == b[name] by {
        let i = choose|i: int| 0 <= i < updated.len() && (#[trigger] updated[i]).image_name == name;
        assert(a[updated[i].image_name] == updated[i]);
        if i != at {
            assert(records[i].image_name == name);
            assert(record_map(records)[records[i].image_name] == records[i]);
            assert(records[i].image_name != records[at].image_name);
        }
    }
    assert(a =~= b);
}

/// An image of a batch run that was not classified, and why.
#[derive(Debug)]
pub struct BatchFailure {
    pub image_name: String,
    pub error: EngineError,
}

/// The names of the failures, in their order.
pub open spec fn failure_names(failures: Seq<BatchFailure>) -> Seq<Seq<char>> {
    Seq::new(failures.len(), |i: int| failures[i].image_name@)
}

/// What a batch run leaves: the records of the images that were classified,
/// of which no two have the same name, and the failures of the others.
#[derive(Debug)]
pub struct BatchResults {
    entries: Vec<BatchResult>,
    failures: Vec<BatchFailure>,
}

impl BatchResults {
    /// The records, in the order in which their names first came.
    pub closed spec fn records(&self) -> Seq<BatchRecord> {
        Seq::new(self.entries@.len(), |i: int| self.entries@[i]@)
    }

    /// No two records have the same name.
    pub open spec fn wf(&self) -> bool {
        distinct_names(self.records())
    }

    /// The records by name.
    pub open spec fn view(&self) -> Map<Seq<char>, BatchRecord> {
        record_map(self.records())
    }

    /// The failures, in the order in which they came.
    pub closed spec fn failures(&self) -> Seq<BatchFailure> {
        self.failures@
    }

    /// No records and no failures.
    pub fn new() -> (results: BatchResults)
        ensures
            results.wf(),
            results.records() == Seq::<BatchRecord>::empty(),
            results@ == Map::<Seq<char>, BatchRecord>::empty(),
            results.failures() == Seq::<BatchFailure>::empty(),
    {
        let results = BatchResults { entries: Vec::new(), failures: Vec::new() };
        assert(results.records() =~= Seq::<BatchRecord>::empty());
        results
    }

    /// Where the record of the given name stands, if there is one.
    fn position(&self, name: &String) -> (at: Option<usize>)
        ensures
            match at {
                Some(i) => i < self.records().len() && self.records()[i as int].image_name == name@,
                None => forall|i: int|
                    0 <= i < self.records().len() ==> (#[trigger] self.records()[i]).image_name
                        != name@,
            },
    {
        let mut i: usize = 0;
        while i < self.entries.len()
            invariant
                i <= self.entries.len(),
                forall|j: int| 0 <= j < i ==> (#[trigger] self.records()[j]).image_name != name@,
            decreases self.entries.len() - i,
        {
            if self.entries[i].image_name == *name {
                return Some(i);
            }
            i += 1;
        }
        None
    }

    /// Puts a record in: in place of the one of the same name, if there is
    /// one, and as a new one otherwise.
    pub fn insert(&mut self, entry: BatchResult)
        requires
            old(self).wf(),
        ensures
            final(self).wf(),
            final(self).failures() == old(self).failures(),
            final(self)@ == old(self)@.insert(entry@.image_name, entry@),
            !old(self)@.contains_key(entry@.image_name) ==> final(self).records() == old(
                self,
            ).records().push(entry@),
    {
        let ghost before = self.records();
        proof {
            lemma_record_map_names(before);
        }
        match self.position(&entry.image_name) {
            Some(at) => {
                proof {
                    lemma_record_map_update(before, at as int, entry@);
                }
                self.entries.set(at, entry);
                assert(self.records() =~= before.update(at as int, entry@));
            },
            None => {
                self.entries.push(entry);
                assert(self.records() =~= before.push(entry@));
                assert(self.records().drop_last() =~= before);
                assert forall|i: int, j: int| 0 <= i < j < self.records().len() implies (
                #[trigger] self.records()[i]).image_name != (#[trigger] self.records()[j]).image_name by {
                    if j < before.len() {
                        assert(before[i].image_name != before[j].image_name);
                    } else {
                        assert(before[i].image_name != entry@.image_name);
                    }
                }
            },
        }
    }

    /// Notes a failure after those that are there. The records stay.
    pub fn reject(&mut self, failure: BatchFailure)
        ensures
            final(self).records() == old(self).records(),
            final(self).failures() == old(self).failures().push(failure),
    {
        self.failures.push(failure);
    }

    /// The failures, in the order in which they came.
    pub fn failed(&self) -> (all: &Vec<BatchFailure>)
        ensures
            all@ == self.failures(),
    {
        &self.failures
    }

    /// How many records there are.
    pub fn len(&self) -> (n: usize)
        requires
            self.wf(),
        ensures
            n == self@.dom().len(),
            n == self.records().len(),
    {
        proof {
            lemma_record_map_distinct(self.records());
        }
        self.entries.len()
    }

    /// The record of the image of the given name.
    pub fn get(&self, name: &String) -> (found: Option<&BatchResult>)
        requires
            self.wf(),
        ensures
            match found {
                Some(entry) => self@.contains_key(name@) && self@[name@] == entry@,
                None => !self@.contains_key(name@),
            },
    {
        proof {
            lemma_record_map_distinct(self.records());
            lemma_record_map_names(self.records());
        }
        match self.position(name) {
            Some(at) => {
                assert(self.records()[at as int] == self.entries@[at as int]@);
                Some(&self.entries[at])
            },
            None => None,
        }
    }

    /// The records, in the order in which their names first came.
    pub fn entries(&self) -> (all: &Vec<BatchResult>)
        ensures
            all@.len() == self.records().len(),
            forall|i: int| 0 <= i < all@.len() ==> (#[trigger] all@[i])@ == self.records()[i],
    {
        &self.entries
    }
}

} // verus!
