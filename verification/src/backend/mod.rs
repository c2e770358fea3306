use vstd::prelude::*;

pub mod bitvec;
pub mod errors;
pub mod vcd_parser;

use bit_vec::BitVec;
use vstd::string::StringExecFns;
use crate::backend::bitvec::{bitvec_bits, bitvec_from_elem, bitvec_len, bitvec_set};
use crate::backend::errors::Waverr;
use crate::backend::vcd_parser::{header_map, parse_vcd, vcd_parse, DumpCommand, Header, IDMap, LogicValue};

verus! {

/// The span of time, in the units of the VCD dump, that one bucket covers.
pub const DEFAULT_SLIZE_SIZE: u32 = 10000;

/// The character of decimal digit `d`.
pub open spec fn digit_char(d: nat) -> char {
    ((48 + d) as u32) as char
}

/// The decimal notation of `n`, without leading zeros.
pub open spec fn decimal(n: nat) -> Seq<char>
    decreases n,
{
    if n < 10 {
        seq![digit_char(n)]
    } else {
        decimal(n / 10) + seq![digit_char(n % 10)]
    }
}

/// The one-character string of decimal digit `d`.
fn digit_str(d: u32) -> (r: &'static str)
    requires
        d < 10,
    ensures
        r@ == seq![digit_char(d as nat)],
{
    proof {
        reveal_strlit("0");
        reveal_strlit("1");
        reveal_strlit("2");
        reveal_strlit("3");
        reveal_strlit("4");
        reveal_strlit("5");
        reveal_strlit("6");
        reveal_strlit("7");
        reveal_strlit("8");
        reveal_strlit("9");
    }
    match d {
        0 => "0",
        1 => "1",
        2 => "2",
        3 => "3",
        4 => "4",
        5 => "5",
        6 => "6",
        7 => "7",
        8 => "8",
        _ => "9",
    }
}

/// `n` written in decimal, without sign or leading zeros.
fn u32_to_string(n: u32) -> (s: String)
    ensures
        s@ == decimal(n as nat),
    decreases n,
{
    if n < 10 {
        String::from_str(digit_str(n))
    } else {
        let mut s = u32_to_string(n / 10);
        s.append(digit_str(n % 10));
        s
    }
}

/// The name `a-b` of the slice of time from `a` to `b`.
pub open spec fn range_name(a: u32, b: u32) -> Seq<char> {
    decimal(a as nat) + seq!['-'] + decimal(b as nat)
}

/// Writes `a-b`.
fn range_string(a: u32, b: u32) -> (s: String)
    ensures
        s@ == range_name(a, b),
{
    let mut s = u32_to_string(a);
    s.append("-");
    let tail = u32_to_string(b);
    s.append(tail.as_str());
    proof {
        reveal_strlit("-");
    }
    s
}

/// The shape of a signal: a single bit, or a vector of the given width.
#[derive(Debug, Clone, Copy, PartialEq, Eq, Structural)]
pub enum SigType {
    Bit,
    Vector(u32),
}

impl SigType {
    /// The signal type of a signal `width` bits wide.
    pub open spec fn spec_from_width(width: u32) -> SigType {
        if width == 1 {
            SigType::Bit
        } else {
            SigType::Vector(width)
        }
    }

    /// A width of one gives a single bit signal, any other width a vector.
    pub fn from_width(width: u32) -> (r: SigType)
        ensures
            r == Self::spec_from_width(width),
    {
        match width {
            1 => SigType::Bit,
            bw => SigType::Vector(bw),
        }
    }
}


/// Whether a value sets the first state bit: `1` and `x` do.
pub open spec fn low_bit(v: LogicValue) -> bool {
    v is V1 || v is X
}

/// Whether a value sets the second state bit: `x` and `z` do.
pub open spec fn high_bit(v: LogicValue) -> bool {
    v is X || v is Z
}

/// Whether some value of `vals` is `x` or `z`.
pub open spec fn has_zx(vals: Seq<LogicValue>) -> bool {
    exists|i: int| 0 <= i < vals.len() && #[trigger] high_bit(vals[i])
}

/// The two-plane encoding of a vector of four-state values: the first plane
/// holds the first state bit of each value; the second plane is present only
/// when some value is `x` or `z`, and holds the second state bits.
pub open spec fn encode(vals: Seq<LogicValue>) -> (Seq<bool>, Option<Seq<bool>>) {
    (
        Seq::new(vals.len(), |i: int| low_bit(vals[i])),
        if has_zx(vals) {
            Some(Seq::new(vals.len(), |i: int| high_bit(vals[i])))
        } else {
            None
        },
    )
}

/// The value at index `i` of an encoded vector: `00` is `0`, `10` is `1`,
/// `11` is `x` and `01` is `z` (first plane, then second; an absent second
/// plane reads as zeros).
pub open spec fn decode_at(pv: (Seq<bool>, Option<Seq<bool>>), i: int) -> LogicValue {
    let low = pv.0[i];
    let high = match pv.1 {
        Some(h) => h[i],
        None => false,
    };
    if low && high {
        LogicValue::X
    } else if low {
        LogicValue::V1
    } else if high {
        LogicValue::Z
    } else {
        LogicValue::V0
    }
}

/// A signal value in four states, stored as two parallel bit planes
/// (see [`encode`]). Values that are all driven need no second plane.
#[derive(Debug, PartialEq)]
pub struct ParsedVec(pub BitVec, pub Option<BitVec>);

impl View for ParsedVec {
    type V = (Seq<bool>, Option<Seq<bool>>);

    open spec fn view(&self) -> (Seq<bool>, Option<Seq<bool>>) {
        (
            bitvec_bits(self.0),
            match self.1 {
                Some(b) => Some(bitvec_bits(b)),
                None => None,
            },
        )
    }
}

impl ParsedVec {
    /// The number of values held, truncated to 32 bits.
    pub fn len(&self) -> (r: u32)
        ensures
            r == self@.0.len() as u32,
    {
        bitvec_len(&self.0) as u32
    }

    /// The encoding of `vec_val` (see [`encode`]).
    pub fn from(vec_val: Vec<LogicValue>) -> (r: ParsedVec)
        ensures
            r@ == encode(vec_val@),
    {
        let n = vec_val.len();
        let mut low = bitvec_from_elem(n, false);
        let mut high: Option<BitVec> = None;
        for bidx in 0..n
            invariant
                n == vec_val@.len(),
                bitvec_bits(low) == Seq::new(n as nat, |j: int| j < bidx && low_bit(vec_val@[j])),
                high is None <==> !(exists|j: int| 0 <= j < bidx && #[trigger] high_bit(vec_val@[j])),
                high is Some ==> bitvec_bits(high->Some_0) == Seq::new(
                    n as nat,
                    |j: int| j < bidx && high_bit(vec_val@[j]),
                ),
        {
            let bit = vec_val[bidx];
            match bit {
                LogicValue::V1 => {
                    bitvec_set(&mut low, bidx, true);
                },
                LogicValue::X => {
                    bitvec_set(&mut low, bidx, true);
                    let mut h = match high {
                        Some(b) => b,
                        None => bitvec_from_elem(n, false),
                    };
                    bitvec_set(&mut h, bidx, true);
                    high = Some(h);
                },
                LogicValue::Z => {
                    let mut h = match high {
                        Some(b) => b,
                        None => bitvec_from_elem(n, false),
                    };
                    bitvec_set(&mut h, bidx, true);
                    high = Some(h);
                },
                LogicValue::V0 => {},
            }
            proof {
                assert(bitvec_bits(low) =~= Seq::new(n as nat, |j: int| j < bidx + 1 && low_bit(vec_val@[j])));
                if high is Some {
                    assert(bitvec_bits(high->Some_0) =~= Seq::new(
                        n as nat,
                        |j: int| j < bidx + 1 && high_bit(vec_val@[j]),
                    ));
                }
                if high_bit(vec_val@[bidx as int]) {
                    assert(exists|j: int| 0 <= j < bidx + 1 && #[trigger] high_bit(vec_val@[j]));
                }
            }
        }
        let r = ParsedVec(low, high);
        proof {
            assert(r@.0 =~= encode(vec_val@).0);
            if r.1 is Some {
                assert(r@.1->Some_0 =~= encode(vec_val@).1->Some_0);
            }
        }
        r
    }
}

/// Encoding loses nothing: every value of `vals` is recovered from its
/// encoding, so two different value vectors never share an encoding.
pub proof fn lemma_parsed_vec_roundtrip(vals: Seq<LogicValue>)
    ensures
        encode(vals).0.len() == vals.len(),
        forall|i: int| 0 <= i < vals.len() ==> decode_at(encode(vals), i) == vals[i],
{
    assert forall|i: int| 0 <= i < vals.len() implies decode_at(encode(vals), i) == vals[i] by {
        if high_bit(vals[i]) {
            assert(has_zx(vals));
        }
    }
}


/// A named wave held as `(time, value)` change points.
#[derive(Debug, Clone)]
pub struct Wave {
    pub name: String,
    pub signal_content: Vec<(u32, u32)>,
    pub sig_type: SigType,
}

/// The change points of the placeholder wave.
pub open spec fn placeholder_changes() -> Seq<(u32, u32)> {
    seq![(0u32, 1u32), (10u32, 0u32), (20u32, 1u32), (30u32, 0u32), (50u32, 1u32), (500u32, 0u32)]
}

impl Default for Wave {
    /// A placeholder single-bit wave that toggles a few times.
    fn default() -> (r: Self)
        ensures
            r.name@ == "PlaceholderWave"@,
            r.signal_content@ == placeholder_changes(),
            r.sig_type == SigType::Bit,
    {
        let r = Wave {
            name: String::from_str("PlaceholderWave"),
            signal_content: vec![(0, 1), (10, 0), (20, 1), (30, 0), (50, 1), (500, 0)],
            sig_type: SigType::Bit,
        };
        proof {
            assert(r.signal_content@ =~= placeholder_changes());
        }
        r
    }
}

impl Wave {
    /// The placeholder wave, shaped as a 4-bit vector.
    pub fn default_vec() -> (r: Self)
        ensures
            r.name@ == "PlaceholderWave"@,
            r.signal_content@ == placeholder_changes(),
            r.sig_type == SigType::Vector(4),
    {
        Wave { sig_type: SigType::Vector(4), ..Wave::default() }
    }
}

/// What a stored bucket holds, with each value in its encoded form.
pub struct BucketModel {
    pub timestamp_range: (u32, u32),
    pub id: u32,
    pub dumps: Seq<(u32, (Seq<bool>, Option<Seq<bool>>))>,
}

/// The timestamped values of a dump list, each value by its encoding.
pub open spec fn dumps_view(s: Seq<(u32, ParsedVec)>) -> Seq<(u32, (Seq<bool>, Option<Seq<bool>>))> {
    s.map_values(|d: (u32, ParsedVec)| (d.0, d.1@))
}

/// A chunk of one signal's value changes: the changes of signal `id` that
/// were read while the time stood in `timestamp_range`.
#[derive(Debug, PartialEq)]
pub struct Bucket {
    pub timestamp_range: (u32, u32),
    pub id: u32,
    pub sig_dumps: Vec<(u32, ParsedVec)>,
}

impl View for Bucket {
    type V = BucketModel;

    open spec fn view(&self) -> BucketModel {
        BucketModel {
            timestamp_range: self.timestamp_range,
            id: self.id,
            dumps: dumps_view(self.sig_dumps@),
        }
    }
}

/// The models of a list of buckets.
pub open spec fn buckets_view(s: Seq<Bucket>) -> Seq<BucketModel> {
    s.map_values(|b: Bucket| b@)
}

impl Default for Bucket {
    /// An empty bucket of signal 0 over the first slice of time.
    fn default() -> (r: Self)
        ensures
            r@ == (BucketModel { timestamp_range: (0, DEFAULT_SLIZE_SIZE), id: 0, dumps: Seq::empty() }),
    {
        let r = Bucket { timestamp_range: (0, 10000), id: 0, sig_dumps: Vec::new() };
        proof {
            assert(dumps_view(r.sig_dumps@) =~= Seq::empty());
        }
        r
    }
}

impl Bucket {
    /// The name of the tree that stores the buckets of this time slice:
    /// `start-end` in decimal.
    pub fn get_db_idx(&self) -> (r: String)
        ensures
            r@ == range_name(self.timestamp_range.0, self.timestamp_range.1),
    {
        range_string(self.timestamp_range.0, self.timestamp_range.1)
    }

    /// An empty bucket of signal `id_` over `stamps`.
    pub fn new(id_: u32, stamps: (u32, u32)) -> (r: Bucket)
        ensures
            r@ == (BucketModel { timestamp_range: stamps, id: id_, dumps: Seq::empty() }),
    {
        let r = Bucket { timestamp_range: stamps, id: id_, sig_dumps: Vec::new() };
        proof {
            assert(dumps_view(r.sig_dumps@) =~= Seq::empty());
        }
        r
    }

    /// Appends the change of the signal to `val_vec` at `timestamp`.
    pub fn add_new_signal(&mut self, timestamp: u32, val_vec: Vec<LogicValue>)
        ensures
            final(self)@ == (BucketModel {
                dumps: old(self)@.dumps.push((timestamp, encode(val_vec@))),
                ..old(self)@
            }),
    {
        let pv = ParsedVec::from(val_vec);
        self.sig_dumps.push((timestamp, pv));
        proof {
            assert(dumps_view(self.sig_dumps@) =~= dumps_view(old(self).sig_dumps@).push((timestamp, encode(val_vec@))));
        }
    }
}


/// Whether a bucket lookup failed otherwise than by a missing bucket.
pub open spec fn is_hard_err(r: Result<Bucket, Waverr>) -> bool {
    r is Err && !(r->Err_0 is MissingID)
}

/// Whether some lookup of `bs` failed otherwise than by a missing bucket.
pub open spec fn has_hard_err(bs: Seq<Result<Bucket, Waverr>>) -> bool {
    exists|i: int| 0 <= i < bs.len() && #[trigger] is_hard_err(bs[i])
}

/// The changes held by the buckets found, in bucket order.
pub open spec fn found_dumps(bs: Seq<Result<Bucket, Waverr>>) -> Seq<(u32, (Seq<bool>, Option<Seq<bool>>))>
    decreases bs.len(),
{
    if bs.len() == 0 {
        Seq::empty()
    } else {
        found_dumps(bs.drop_last()) + match bs.last() {
            Ok(b) => b@.dumps,
            Err(_) => Seq::empty(),
        }
    }
}

/// A whole signal held in memory: its name, all its changes in time order,
/// and its shape.
#[derive(Debug)]
pub struct InMemWave {
    pub name: String,
    pub signal_content: Vec<(u32, ParsedVec)>,
    pub sig_type: SigType,
}

impl InMemWave {
    /// Joins the buckets of signal `name_str`, one lookup per time slice in
    /// time order. Slices that hold no bucket of the signal are skipped; the
    /// first other failure is returned. The signal's shape is the width of
    /// its first change.
    pub fn new(name_str: &str, buckets: Vec<Result<Bucket, Waverr>>) -> (r: Result<InMemWave, Waverr>)
        requires
            has_hard_err(buckets@) || found_dumps(buckets@).len() > 0,
        ensures
            has_hard_err(buckets@) <==> r is Err,
            r matches Err(e) ==> exists|i: int|
                0 <= i < buckets@.len() && is_hard_err(buckets@[i])
                    && (forall|j: int| 0 <= j < i ==> !#[trigger] is_hard_err(buckets@[j]))
                    && e == buckets@[i]->Err_0,
            r matches Ok(w) ==> {
                &&& w.name@ == name_str@
                &&& dumps_view(w.signal_content@) == found_dumps(buckets@)
                &&& w.sig_type == SigType::spec_from_width(found_dumps(buckets@)[0].1.0.len() as u32)
            },
    {
        let mut signal_content: Vec<(u32, ParsedVec)> = Vec::new();
        let ghost bs = buckets@;
        for bucket in it: buckets
            invariant
                bs == buckets@,
                it.seq() == bs,
                forall|j: int| 0 <= j < it.index() ==> !#[trigger] is_hard_err(bs[j]),
                dumps_view(signal_content@) == found_dumps(bs.take(it.index() as int)),
        {
            let ghost k = it.index();
            proof {
                assert(bs.take(k + 1).drop_last() == bs.take(k as int));
                assert(bs.take(k + 1).last() == bs[k as int]);
            }
            match bucket {
                Ok(mut bucket) => {
                    let ghost before = signal_content@;
                    signal_content.append(&mut bucket.sig_dumps);
                    proof {
                        assert(dumps_view(signal_content@) =~= dumps_view(before) + bs[k as int]->Ok_0@.dumps);
                    }
                },
                Err(Waverr::MissingID(m)) => {
                    proof {
                        assert(found_dumps(bs.take(k + 1)) =~= found_dumps(bs.take(k as int)));
                    }
                },
                Err(bucket_err) => {
                    proof {
                        assert(is_hard_err(bs[k as int]));
                    }
                    return Err(bucket_err);
                },
            }
        }
        proof {
            assert(bs.take(bs.len() as int) == bs);
            if has_hard_err(bs) {
                let i = choose|i: int| 0 <= i < bs.len() && #[trigger] is_hard_err(bs[i]);
                assert(!is_hard_err(bs[i]));
            }
        }
        let first = &signal_content[0];
        let st = SigType::from_width(first.1.len());
        Ok(InMemWave { name: String::from_str(name_str), signal_content, sig_type: st })
    }
}

/// Whether the change times of `d` never go down.
pub open spec fn times_ordered(d: Seq<(u32, (Seq<bool>, Option<Seq<bool>>))>) -> bool {
    forall|i: int, j: int| 0 <= i <= j < d.len() ==> #[trigger] d[i].0 <= #[trigger] d[j].0
}

/// Joining a run of lookups keeps the order in which they were made: the
/// changes of two runs one after the other are those of the first run
/// followed by those of the second, and one lookup gives the changes of the
/// bucket it found, or none.
pub proof fn lemma_join_concatenates(a: Seq<Result<Bucket, Waverr>>, b: Seq<Result<Bucket, Waverr>>)
    ensures
        found_dumps(a + b) == found_dumps(a) + found_dumps(b),
        forall|x: Bucket| found_dumps(seq![Ok::<Bucket, Waverr>(x)]) == x@.dumps,
        forall|e: Waverr| found_dumps(seq![Err::<Bucket, Waverr>(e)]) == Seq::<(u32, (Seq<bool>, Option<Seq<bool>>))>::empty(),
    decreases b.len(),
{
    assert forall|x: Bucket| found_dumps(seq![Ok::<Bucket, Waverr>(x)]) == x@.dumps by {
        let one = seq![Ok::<Bucket, Waverr>(x)];
        assert(one.drop_last() =~= Seq::<Result<Bucket, Waverr>>::empty());
        assert(found_dumps(one.drop_last()) + x@.dumps =~= x@.dumps);
    }
    assert forall|e: Waverr| found_dumps(seq![Err::<Bucket, Waverr>(e)]) == Seq::<(u32, (Seq<bool>, Option<Seq<bool>>))>::empty() by {
        let one = seq![Err::<Bucket, Waverr>(e)];
        assert(one.drop_last() =~= Seq::<Result<Bucket, Waverr>>::empty());
        assert(found_dumps(one.drop_last()) + Seq::empty() =~= Seq::<(u32, (Seq<bool>, Option<Seq<bool>>))>::empty());
    }
    if b.len() == 0 {
        assert(a + b =~= a);
        assert(found_dumps(a) + found_dumps(b) =~= found_dumps(a));
    } else {
        lemma_join_concatenates(a, b.drop_last());
        assert((a + b).drop_last() =~= a + b.drop_last());
        assert((a + b).last() == b.last());
        let tail = match b.last() {
            Ok(x) => x@.dumps,
            Err(_) => Seq::empty(),
        };
        assert(found_dumps(a + b) == found_dumps(a + b.drop_last()) + tail);
        assert(found_dumps(b) == found_dumps(b.drop_last()) + tail);
        assert(found_dumps(a) + found_dumps(b.drop_last()) + tail =~= found_dumps(a) + (found_dumps(
            b.drop_last(),
        ) + tail));
    }
}

proof fn lemma_found_below(bs: Seq<Result<Bucket, Waverr>>, bound: u32)
    requires
        forall|i: int|
            0 <= i < bs.len() && #[trigger] bs[i] is Ok ==> dumps_within(bs[i]->Ok_0@)
                && bs[i]->Ok_0.timestamp_range.1 <= bound,
    ensures
        forall|k: int| 0 <= k < found_dumps(bs).len() ==> #[trigger] found_dumps(bs)[k].0 < bound,
    decreases bs.len(),
{
    if bs.len() > 0 {
        let rest = bs.drop_last();
        assert forall|i: int| 0 <= i < rest.len() && #[trigger] rest[i] is Ok implies dumps_within(rest[i]->Ok_0@)
            && rest[i]->Ok_0.timestamp_range.1 <= bound by {
            assert(rest[i] == bs[i]);
        }
        lemma_found_below(rest, bound);
        let n = found_dumps(rest).len();
        assert forall|k: int| 0 <= k < found_dumps(bs).len() implies #[trigger] found_dumps(bs)[k].0 < bound by {
            if k < n {
                assert(found_dumps(bs)[k] == found_dumps(rest)[k]);
            } else {
                assert(bs[bs.len() - 1] is Ok);
                let x = bs.last()->Ok_0;
                assert(found_dumps(bs)[k] == x@.dumps[k - n]);
            }
        }
    }
}

/// Buckets given in slice order, each holding its changes in time order and
/// inside its own range, join into one wave whose change times never go
/// down.
pub proof fn lemma_join_in_time_order(bs: Seq<Result<Bucket, Waverr>>)
    requires
        forall|i: int|
            0 <= i < bs.len() && #[trigger] bs[i] is Ok ==> dumps_within(bs[i]->Ok_0@) && times_ordered(
                bs[i]->Ok_0@.dumps,
            ),
        forall|i: int, j: int|
            0 <= i < j < bs.len() && #[trigger] bs[i] is Ok && #[trigger] bs[j] is Ok
                ==> bs[i]->Ok_0.timestamp_range.1 <= bs[j]->Ok_0.timestamp_range.0,
    ensures
        times_ordered(found_dumps(bs)),
    decreases bs.len(),
{
    if bs.len() > 0 {
        let rest = bs.drop_last();
        let last = bs.len() - 1;
        assert forall|i: int| 0 <= i < rest.len() && #[trigger] rest[i] is Ok implies dumps_within(rest[i]->Ok_0@)
            && times_ordered(rest[i]->Ok_0@.dumps) by {
            assert(rest[i] == bs[i]);
        }
        assert forall|i: int, j: int|
            0 <= i < j < rest.len() && #[trigger] rest[i] is Ok && #[trigger] rest[j] is Ok implies rest[i]->Ok_0.timestamp_range.1
            <= rest[j]->Ok_0.timestamp_range.0 by {
            assert(rest[i] == bs[i] && rest[j] == bs[j]);
        }
        lemma_join_in_time_order(rest);
        let n = found_dumps(rest).len();
        let f = found_dumps(bs);
        match bs[last] {
            Ok(x) => {
                assert(bs.last() == bs[last]);
                assert forall|i: int| 0 <= i < rest.len() && #[trigger] rest[i] is Ok implies dumps_within(rest[i]->Ok_0@)
                    && rest[i]->Ok_0.timestamp_range.1 <= x.timestamp_range.0 by {
                    assert(rest[i] == bs[i]);
                    assert(bs[i] is Ok && bs[last] is Ok);
                }
                lemma_found_below(rest, x.timestamp_range.0);
                assert(f == found_dumps(rest) + x@.dumps);
                assert forall|i: int, j: int| 0 <= i <= j < f.len() implies #[trigger] f[i].0 <= #[trigger] f[j].0 by {
                    if j < n {
                        assert(f[i] == found_dumps(rest)[i] && f[j] == found_dumps(rest)[j]);
                    } else if i < n {
                        assert(f[i] == found_dumps(rest)[i]);
                        assert(f[j] == x@.dumps[j - n]);
                        assert(x.timestamp_range.0 <= x@.dumps[j - n].0);
                    } else {
                        assert(f[i] == x@.dumps[i - n] && f[j] == x@.dumps[j - n]);
                    }
                }
            },
            Err(_) => {
                assert(bs.last() == bs[last]);
                assert(f =~= found_dumps(rest));
            },
        }
    }
}


/// The settings of a wave database: its name, whether it is filled, and the
/// span of simulation time it holds.
pub struct WDBConfig {
    pub db_name: String,
    pub populated: bool,
    pub time_range: (u32, u32),
}

/// The index of a wave database: its settings and the map from signal names
/// to signal ids. The buckets themselves live in the caller's store, one
/// tree per time slice (see [`WaveDB::ts2key`]).
pub struct WaveDB {
    pub config: WDBConfig,
    pub id_map: IDMap,
}

/// The state of loading a value-change section: the current time, the time
/// slice the open buckets cover, the signal codes of the open buckets with
/// the buckets themselves, and the buckets already completed.
pub struct LoadState {
    pub global_time: u32,
    pub range: (u32, u32),
    pub codes: Seq<u64>,
    pub open: Seq<BucketModel>,
    pub flushed: Seq<BucketModel>,
}

/// Before the first command: time 0, the first slice, nothing open.
pub open spec fn load_start() -> LoadState {
    LoadState {
        global_time: 0,
        range: (0, DEFAULT_SLIZE_SIZE),
        codes: Seq::empty(),
        open: Seq::empty(),
        flushed: Seq::empty(),
    }
}

/// The position of the last occurrence of `code` in `codes`, or -1.
pub open spec fn code_index(codes: Seq<u64>, code: u64) -> int
    decreases codes.len(),
{
    if codes.len() == 0 {
        -1
    } else if codes.last() == code {
        codes.len() - 1
    } else {
        code_index(codes.drop_last(), code)
    }
}

/// Records a change of signal `code` to `vals` at the current time: it joins
/// the open bucket of that signal, or opens one over the current slice.
pub open spec fn record_change(st: LoadState, code: u64, vals: Seq<LogicValue>) -> LoadState {
    let i = code_index(st.codes, code);
    let entry = (st.global_time, encode(vals));
    if i >= 0 {
        LoadState {
            open: st.open.update(i, BucketModel { dumps: st.open[i].dumps.push(entry), ..st.open[i] }),
            ..st
        }
    } else {
        LoadState {
            codes: st.codes.push(code),
            open: st.open.push(BucketModel { timestamp_range: st.range, id: code as u32, dumps: seq![entry] }),
            ..st
        }
    }
}

/// Whether moving from time `prev` to time `time` leaves the slice: the two
/// times lie in different slices.
pub open spec fn crosses_slice(prev: u32, time: u32) -> bool {
    slice_start(time) != slice_start(prev)
}

/// The start of the slice that holds `time`.
pub open spec fn slice_start(time: u32) -> int {
    time - time % DEFAULT_SLIZE_SIZE
}

/// One command of the value-change section. A timestamp (kept to its low 32
/// bits) that leaves the slice completes every open bucket and starts the
/// slice of the new time; a change is recorded; anything else is skipped.
pub open spec fn load_step(st: LoadState, cmd: DumpCommand) -> LoadState {
    match cmd {
        DumpCommand::Timestamp(t) => {
            let time = t as u32;
            if crosses_slice(st.global_time, time) {
                LoadState {
                    global_time: time,
                    range: (slice_start(time) as u32, (slice_start(time) + DEFAULT_SLIZE_SIZE) as u32),
                    codes: Seq::empty(),
                    open: Seq::empty(),
                    flushed: st.flushed + st.open,
                }
            } else {
                LoadState { global_time: time, ..st }
            }
        },
        DumpCommand::ChangeVector(code, vals) => record_change(st, code, vals@),
        DumpCommand::ChangeScalar(code, v) => record_change(st, code, seq![v]),
        DumpCommand::Other => st,
    }
}

/// The state after the commands `cmds`, in order.
pub open spec fn load_run(cmds: Seq<DumpCommand>) -> LoadState
    decreases cmds.len(),
{
    if cmds.len() == 0 {
        load_start()
    } else {
        load_step(load_run(cmds.drop_last()), cmds.last())
    }
}

/// Whether a command would start a slice whose end is past `u32::MAX`.
pub open spec fn step_overflows(st: LoadState, cmd: DumpCommand) -> bool {
    match cmd {
        DumpCommand::Timestamp(t) => crosses_slice(st.global_time, t as u32)
            && slice_start(t as u32) + DEFAULT_SLIZE_SIZE > u32::MAX,
        _ => false,
    }
}

/// Whether no command of `cmds` starts a slice past `u32::MAX`.
pub open spec fn load_fits(cmds: Seq<DumpCommand>) -> bool {
    forall|i: int| 0 <= i < cmds.len() ==> !#[trigger] step_overflows(load_run(cmds.take(i)), cmds[i])
}

/// Whether some item failed to parse.
pub open spec fn has_parse_err(items: Seq<Result<DumpCommand, ()>>) -> bool {
    exists|i: int| 0 <= i < items.len() && #[trigger] items[i] is Err
}

/// The commands of parsed items.
pub open spec fn oks(items: Seq<Result<DumpCommand, ()>>) -> Seq<DumpCommand> {
    items.map_values(|r: Result<DumpCommand, ()>| r->Ok_0)
}

/// Whether no command read before the first parse failure starts a slice
/// past `u32::MAX`.
pub open spec fn items_fit(items: Seq<Result<DumpCommand, ()>>) -> bool {
    forall|k: int|
        0 <= k < items.len() && !has_parse_err(items.take(k + 1)) ==> !#[trigger] step_overflows(
            load_run(oks(items.take(k))),
            items[k]->Ok_0,
        )
}

/// The buckets that loading `cmds` stores, in the order it stores them: the
/// buckets completed at each change of slice, then those still open at the end.
pub open spec fn loaded_buckets(cmds: Seq<DumpCommand>) -> Seq<BucketModel> {
    load_run(cmds).flushed + load_run(cmds).open
}


/// `code_index` finds the last occurrence.
proof fn lemma_code_index(codes: Seq<u64>, code: u64, f: int)
    requires
        -1 <= f < codes.len(),
        f >= 0 ==> codes[f] == code,
        forall|j: int| f < j < codes.len() ==> codes[j] != code,
    ensures
        code_index(codes, code) == f,
    decreases codes.len(),
{
    if codes.len() > 0 && codes.len() - 1 != f {
        lemma_code_index(codes.drop_last(), code, f);
    }
}

/// Records a change of signal `code` to `vals` at `time` in the open buckets.
fn record_change_exec(
    codes: &mut Vec<u64>,
    open: &mut Vec<Bucket>,
    code: u64,
    range: (u32, u32),
    time: u32,
    vals: Vec<LogicValue>,
)
    requires
        old(codes)@.len() == old(open)@.len(),
    ensures
        final(codes)@.len() == final(open)@.len(),
        ({
            let st = LoadState {
                global_time: time,
                range,
                codes: old(codes)@,
                open: buckets_view(old(open)@),
                flushed: Seq::empty(),
            };
            &&& final(codes)@ == record_change(st, code, vals@).codes
            &&& buckets_view(final(open)@) == record_change(st, code, vals@).open
        }),
{
    let mut i = codes.len();
    let mut found: Option<usize> = None;
    while i > 0
        invariant
            i <= codes@.len(),
            codes@ == old(codes)@,
            found is None ==> forall|j: int| i <= j < codes@.len() ==> codes@[j] != code,
            found matches Some(f) ==> f < codes@.len() && codes@[f as int] == code
                && forall|j: int| f < j < codes@.len() ==> codes@[j] != code,
        decreases i,
    {
        if found.is_none() && codes[i - 1] == code {
            found = Some(i - 1);
        }
        i = i - 1;
    }
    let ghost st = LoadState {
        global_time: time,
        range,
        codes: old(codes)@,
        open: buckets_view(old(open)@),
        flushed: Seq::empty(),
    };
    match found {
        Some(f) => {
            proof {
                lemma_code_index(codes@, code, f as int);
            }
            let ghost before = buckets_view(open@);
            let mut b = open.remove(f);
            b.add_new_signal(time, vals);
            open.insert(f, b);
            proof {
                assert(buckets_view(open@) =~= record_change(st, code, vals@).open);
            }
        },
        None => {
            proof {
                lemma_code_index(codes@, code, -1);
            }
            let mut b = Bucket::new(code as u32, range);
            b.add_new_signal(time, vals);
            codes.push(code);
            open.push(b);
            proof {
                assert(b@.dumps =~= seq![(time, encode(vals@))]);
                assert(buckets_view(open@) =~= record_change(st, code, vals@).open);
            }
        },
    }
}

/// What loading a value-change section gives: an error when some item
/// failed to parse; otherwise the index (signal map from `header`, or empty
/// without one; time range from 0 to the last time read) and the buckets to
/// store, in storing order.
pub open spec fn from_vcd_result(
    wdb_name: String,
    header: Option<Header>,
    items: Seq<Result<DumpCommand, ()>>,
    r: Result<(WaveDB, Vec<Bucket>), Waverr>,
) -> bool {
    &&& has_parse_err(items) ==> r == Err::<(WaveDB, Vec<Bucket>), Waverr>(Waverr::VCDErr("Malformed vcd"))
    &&& !has_parse_err(items) ==> (r matches Ok((wdb, buckets)) && {
        &&& wdb.config.db_name == wdb_name
        &&& !wdb.config.populated
        &&& wdb.config.time_range == (0u32, load_run(oks(items)).global_time)
        &&& wdb.id_map.wf()
        &&& wdb.id_map@ == match header {
            Some(h) => header_map(h),
            None => Map::empty(),
        }
        &&& buckets_view(buckets@) == loaded_buckets(oks(items))
        &&& forall|i: int| 0 <= i < buckets@.len() ==> is_slice((#[trigger] buckets@[i]).timestamp_range)
        &&& forall|i: int| 0 <= i < buckets@.len() ==> dumps_within((#[trigger] buckets@[i])@)
    })
}

/// Items that fit and parse give commands that fit.
proof fn lemma_items_fit_load_fits(items: Seq<Result<DumpCommand, ()>>)
    requires
        items_fit(items),
        !has_parse_err(items),
    ensures
        load_fits(oks(items)),
{
    assert forall|i: int| 0 <= i < oks(items).len() implies !#[trigger] step_overflows(
        load_run(oks(items).take(i)),
        oks(items)[i],
    ) by {
        assert(oks(items).take(i) =~= oks(items.take(i)));
        if has_parse_err(items.take(i + 1)) {
            let j = choose|j: int| 0 <= j < items.take(i + 1).len() && #[trigger] items.take(i + 1)[j] is Err;
            assert(items[j] is Err);
        }
        assert(!step_overflows(load_run(oks(items.take(i))), items[i]->Ok_0));
    }
}

/// Whether loading `items` starts no slice past `u32::MAX` (see
/// [`items_fit`]), tested item by item.
fn items_fit_exec(items: &Vec<Result<DumpCommand, ()>>) -> (r: bool)
    ensures
        r == items_fit(items@),
{
    let ghost bs = items@;
    let mut gt: u32 = 0;
    let mut i: usize = 0;
    while i < items.len()
        invariant
            bs == items@,
            i <= bs.len(),
            !has_parse_err(bs.take(i as int)),
            gt == load_run(oks(bs.take(i as int))).global_time,
            forall|k: int|
                0 <= k < i && !has_parse_err(bs.take(k + 1)) ==> !#[trigger] step_overflows(
                    load_run(oks(bs.take(k))),
                    bs[k]->Ok_0,
                ),
        decreases bs.len() - i,
    {
        let ghost k = i as int;
        let ghost st = load_run(oks(bs.take(k)));
        proof {
            assert(bs.take(k + 1).drop_last() == bs.take(k));
            if bs[k] is Ok {
                assert(!has_parse_err(bs.take(k + 1))) by {
                    if has_parse_err(bs.take(k + 1)) {
                        let j = choose|j: int| 0 <= j < bs.take(k + 1).len() && #[trigger] bs.take(k + 1)[j] is Err;
                        if j < k {
                            assert(bs.take(k)[j] is Err);
                        }
                    }
                }
                assert(oks(bs.take(k + 1)) =~= oks(bs.take(k)).push(bs[k]->Ok_0));
                assert(oks(bs.take(k + 1)).drop_last() =~= oks(bs.take(k)));
                assert(load_run(oks(bs.take(k + 1))) == load_step(st, bs[k]->Ok_0));
            }
        }
        match &items[i] {
            Err(_) => {
                proof {
                    assert forall|kk: int|
                        0 <= kk < bs.len() && !has_parse_err(bs.take(kk + 1)) implies !#[trigger] step_overflows(
                        load_run(oks(bs.take(kk))),
                        bs[kk]->Ok_0,
                    ) by {
                        if kk >= k {
                            assert(bs.take(kk + 1)[k] is Err);
                        }
                    }
                }
                return true;
            },
            Ok(DumpCommand::Timestamp(t)) => {
                let time = *t as u32;
                let start = time - time % DEFAULT_SLIZE_SIZE;
                if start != gt - gt % DEFAULT_SLIZE_SIZE && start as u64 + DEFAULT_SLIZE_SIZE as u64 > u32::MAX as u64 {
                    proof {
                        assert(step_overflows(st, bs[k]->Ok_0));
                    }
                    return false;
                }
                gt = time;
            },
            Ok(DumpCommand::ChangeVector(code, vals)) => {
                proof {
                    assert(load_step(st, bs[k]->Ok_0).global_time == st.global_time);
                }
            },
            Ok(DumpCommand::ChangeScalar(code, v)) => {
                proof {
                    assert(load_step(st, bs[k]->Ok_0).global_time == st.global_time);
                }
            },
            Ok(DumpCommand::Other) => {},
        }
        i = i + 1;
    }
    proof {
        assert(bs.take(bs.len() as int) == bs);
    }
    true
}

/// Loads a VCD file's bytes into bucket form: the `vcd` crate reads the
/// header and the commands (see [`vcd_parse`]), and [`WaveDB::from_vcd`]
/// loads them. A timestamp read before any parse failure that would start a
/// slice ending past `u32::MAX` is an error.
pub fn wdb_from_vcd_bytes(wdb_name: String, bytes: &[u8]) -> (r: Result<(WaveDB, Vec<Bucket>), Waverr>)
    ensures
        !items_fit(vcd_parse(bytes@).1) ==> r == Err::<(WaveDB, Vec<Bucket>), Waverr>(
            Waverr::VCDErr("Timestamp out of range"),
        ),
        items_fit(vcd_parse(bytes@).1) ==> from_vcd_result(wdb_name, vcd_parse(bytes@).0, vcd_parse(bytes@).1, r),
{
    let (header, items) = parse_vcd(bytes);
    if !items_fit_exec(&items) {
        return Err(Waverr::VCDErr("Timestamp out of range"));
    }
    match &header {
        Some(h) => WaveDB::from_vcd(wdb_name, Some(h), items),
        None => WaveDB::from_vcd(wdb_name, None, items),
    }
}

impl WaveDB {
    /// An empty database index named `db_name`.
    pub fn new(db_name: String) -> (r: WaveDB)
        ensures
            r.config.db_name == db_name,
            !r.config.populated,
            r.config.time_range == (0u32, 0u32),
            r.id_map.wf(),
            r.id_map@ == Map::<Seq<char>, u64>::empty(),
    {
        WaveDB {
            config: WDBConfig { db_name, populated: false, time_range: (0, 0) },
            id_map: IDMap::new(),
        }
    }

    /// The id of the signal named `sig`, or an error when there is none.
    pub fn get_id(&self, sig: &str) -> (r: Result<u32, Waverr>)
        ensures
            self.id_map@.contains_key(sig@) ==> r == Ok::<u32, Waverr>(self.id_map@[sig@] as u32),
            !self.id_map@.contains_key(sig@) ==> r is Err && r->Err_0 is GenericErr,
    {
        self.id_map.signal_to_id(sig)
    }

    /// Sets the span of simulation time the database holds.
    pub fn set_time_range(&mut self, range: (u32, u32))
        ensures
            final(self).config.time_range == range,
            final(self).config.db_name == old(self).config.db_name,
            final(self).config.populated == old(self).config.populated,
            final(self).id_map == old(self).id_map,
    {
        self.config.time_range = range;
    }

    /// The key of the store tree for the slice that holds `start`: the
    /// slice's bounds, `start-end`, in decimal.
    pub fn ts2key(start: u32) -> (r: String)
        requires
            slice_start(start) + DEFAULT_SLIZE_SIZE <= u32::MAX,
        ensures
            r@ == range_name(slice_start(start) as u32, (slice_start(start) + DEFAULT_SLIZE_SIZE) as u32),
    {
        let rounded_ts = start - (start % DEFAULT_SLIZE_SIZE);
        range_string(rounded_ts, rounded_ts + DEFAULT_SLIZE_SIZE)
    }

    /// The starts of the slices to look in for a signal: from the slice of
    /// the first time of the range up to, but not including, the second
    /// slice after the one of the last time.
    pub fn get_time_slices(&self) -> (r: Vec<u32>)
        requires
            (self.config.time_range.1 / DEFAULT_SLIZE_SIZE + 2) * DEFAULT_SLIZE_SIZE <= u32::MAX,
        ensures
            ({
                let lo = (self.config.time_range.0 / DEFAULT_SLIZE_SIZE) * DEFAULT_SLIZE_SIZE;
                let hi = (self.config.time_range.1 / DEFAULT_SLIZE_SIZE + 2) * DEFAULT_SLIZE_SIZE;
                r@ == Seq::new(
                    if lo < hi { ((hi - lo) / DEFAULT_SLIZE_SIZE as int) as nat } else { 0 },
                    |k: int| (lo + k * DEFAULT_SLIZE_SIZE) as u32,
                )
            }),
    {
        let lo = (self.config.time_range.0 / DEFAULT_SLIZE_SIZE) * DEFAULT_SLIZE_SIZE;
        let hi = (self.config.time_range.1 / DEFAULT_SLIZE_SIZE + 2) * DEFAULT_SLIZE_SIZE;
        let mut r: Vec<u32> = Vec::new();
        let mut x = lo;
        while x < hi
            invariant
                lo % DEFAULT_SLIZE_SIZE == 0,
                hi % DEFAULT_SLIZE_SIZE == 0,
                x % DEFAULT_SLIZE_SIZE == 0,
                lo <= x,
                lo < hi ==> x <= hi,
                lo >= hi ==> r@.len() == 0,
                x == lo + r@.len() * DEFAULT_SLIZE_SIZE,
                r@ == Seq::new(r@.len(), |k: int| (lo + k * DEFAULT_SLIZE_SIZE) as u32),
            decreases hi - x,
        {
            r.push(x);
            x = x + DEFAULT_SLIZE_SIZE;
            proof {
                assert(r@ =~= Seq::new(r@.len(), |k: int| (lo + k * DEFAULT_SLIZE_SIZE) as u32));
            }
        }
        proof {
            if lo < hi {
                assert(x == hi);
                assert((hi - lo) / (DEFAULT_SLIZE_SIZE as int) == r@.len());
            } else {
                assert(r@.len() == 0);
            }
        }
        r
    }

    /// Loads the value-change section of a VCD file into bucket form: the
    /// index (signal map from `header`, or empty without one; time range from
    /// 0 to the last time read) and the buckets to store, in storing order.
    /// Each signal's changes are chunked by time slice; a slice ends when a
    /// timestamp lies in another slice than the time before it.
    /// An item that failed to parse makes the load fail.
    pub fn from_vcd(wdb_name: String, header: Option<&Header>, items: Vec<Result<DumpCommand, ()>>) -> (r:
        Result<(WaveDB, Vec<Bucket>), Waverr>)
        requires
            items_fit(items@),
        ensures
            from_vcd_result(
                wdb_name,
                match header {
                    Some(h) => Some(*h),
                    None => None,
                },
                items@,
                r,
            ),
    {
        let mut wdb = WaveDB::new(wdb_name);
        let mut global_time: u32 = 0;
        let mut current_range: (u32, u32) = (global_time, global_time + DEFAULT_SLIZE_SIZE);
        let mut codes: Vec<u64> = Vec::new();
        let mut open: Vec<Bucket> = Vec::new();
        let mut flushed: Vec<Bucket> = Vec::new();
        wdb.id_map = match header {
            Some(h) => IDMap::from(h),
            None => IDMap::new(),
        };
        let ghost bs = items@;
        for item in it: items
            invariant
                bs == items@,
                it.seq() == bs,
                items_fit(bs),
                wdb.config.db_name == wdb_name,
                !wdb.config.populated,
                wdb.id_map.wf(),
                wdb.id_map@ == match header {
                    Some(h) => header_map(*h),
                    None => Map::<Seq<char>, u64>::empty(),
                },
                !has_parse_err(bs.take(it.index() as int)),
                codes@.len() == open@.len(),
                ({
                    let st = load_run(oks(bs.take(it.index() as int)));
                    &&& global_time == st.global_time
                    &&& current_range == st.range
                    &&& codes@ == st.codes
                    &&& buckets_view(open@) == st.open
                    &&& buckets_view(flushed@) == st.flushed
                }),
        {
            let ghost k = it.index() as int;
            let ghost st = load_run(oks(bs.take(k)));
            proof {
                assert(bs.take(k + 1).drop_last() == bs.take(k));
                if bs[k] is Ok {
                    assert(!has_parse_err(bs.take(k + 1)));
                    assert(oks(bs.take(k + 1)) =~= oks(bs.take(k)).push(bs[k]->Ok_0));
                    assert(oks(bs.take(k + 1)).drop_last() =~= oks(bs.take(k)));
                    assert(oks(bs.take(k + 1)).last() == bs[k]->Ok_0);
                    assert(load_run(oks(bs.take(k + 1))) == load_step(st, bs[k]->Ok_0));
                    assert(!step_overflows(st, bs[k]->Ok_0));
                }
            }
            match item {
                Ok(DumpCommand::Timestamp(t)) => {
                    let time = t as u32;
                    proof {
                        assert(bs[k] == Ok::<DumpCommand, ()>(DumpCommand::Timestamp(t)));
                    }
                    if time - time % DEFAULT_SLIZE_SIZE != global_time - global_time % DEFAULT_SLIZE_SIZE {
                        flushed.append(&mut open);
                        codes.clear();
                        let rounded_time = time - (time % DEFAULT_SLIZE_SIZE);
                        current_range = (rounded_time, rounded_time + DEFAULT_SLIZE_SIZE);
                        proof {
                            assert(buckets_view(flushed@) =~= st.flushed + st.open);
                            assert(buckets_view(open@) =~= Seq::<BucketModel>::empty());
                        }
                    }
                    global_time = time;
                    proof {
                        let st2 = load_step(st, DumpCommand::Timestamp(t));
                        assert(global_time == st2.global_time);
                        assert(current_range == st2.range);
                        assert(codes@ == st2.codes);
                        assert(buckets_view(open@) == st2.open);
                        assert(buckets_view(flushed@) == st2.flushed);
                    }
                },
                Ok(DumpCommand::ChangeVector(code, vvalue)) => {
                    proof {
                        assert(bs[k] == Ok::<DumpCommand, ()>(DumpCommand::ChangeVector(code, vvalue)));
                    }
                    let ghost vals = vvalue@;
                    record_change_exec(&mut codes, &mut open, code, current_range, global_time, vvalue);
                    proof {
                        let st2 = load_step(st, bs[k]->Ok_0);
                        assert(st2 == record_change(st, code, vals));
                        assert(codes@ == st2.codes);
                        assert(buckets_view(open@) == st2.open);
                    }
                },
                Ok(DumpCommand::ChangeScalar(code, value)) => {
                    proof {
                        assert(bs[k] == Ok::<DumpCommand, ()>(DumpCommand::ChangeScalar(code, value)));
                    }
                    let v = vec![value];
                    proof {
                        assert(v@ =~= seq![value]);
                    }
                    record_change_exec(&mut codes, &mut open, code, current_range, global_time, v);
                },
                Ok(DumpCommand::Other) => {
                    proof {
                        assert(bs[k] == Ok::<DumpCommand, ()>(DumpCommand::Other));
                    }
                },
                Err(_) => {
                    proof {
                        assert(bs[k] is Err);
                        assert(has_parse_err(bs));
                    }
                    return Err(Waverr::VCDErr("Malformed vcd"));
                },
            }
        }
        proof {
            assert(bs.take(bs.len() as int) == bs);
        }
        let ghost st = load_run(oks(bs));
        flushed.append(&mut open);
        proof {
            assert(buckets_view(flushed@) =~= st.flushed + st.open);
            lemma_items_fit_load_fits(bs);
            lemma_loaded_dumps_within_slice(oks(bs));
            lemma_loaded_buckets_cover_one_slice(oks(bs));
            assert forall|i: int| 0 <= i < flushed@.len() implies is_slice((#[trigger] flushed@[i]).timestamp_range)
                && dumps_within(flushed@[i]@) by {
                assert(buckets_view(flushed@)[i] == flushed@[i]@);
                assert(loaded_buckets(oks(bs))[i] == flushed@[i]@);
                let r = loaded_buckets(oks(bs))[i].timestamp_range;
                assert(r.0 % DEFAULT_SLIZE_SIZE == 0 && r.1 == r.0 + DEFAULT_SLIZE_SIZE);
            }
        }
        wdb.set_time_range((0, global_time));
        Ok((wdb, flushed))
    }
}


/// The number of value changes held by `bs`.
pub open spec fn dump_count(bs: Seq<BucketModel>) -> nat
    decreases bs.len(),
{
    if bs.len() == 0 {
        0
    } else {
        dump_count(bs.drop_last()) + bs.last().dumps.len()
    }
}

/// The number of value changes among `cmds`.
pub open spec fn change_count(cmds: Seq<DumpCommand>) -> nat
    decreases cmds.len(),
{
    if cmds.len() == 0 {
        0
    } else {
        change_count(cmds.drop_last()) + match cmds.last() {
            DumpCommand::ChangeVector(_, _) => 1nat,
            DumpCommand::ChangeScalar(_, _) => 1nat,
            _ => 0nat,
        }
    }
}

proof fn lemma_dump_count_concat(a: Seq<BucketModel>, b: Seq<BucketModel>)
    ensures
        dump_count(a + b) == dump_count(a) + dump_count(b),
    decreases b.len(),
{
    if b.len() == 0 {
        assert(a + b =~= a);
    } else {
        assert((a + b).drop_last() =~= a + b.drop_last());
        lemma_dump_count_concat(a, b.drop_last());
    }
}

proof fn lemma_dump_count_update(s: Seq<BucketModel>, i: int, x: BucketModel)
    requires
        0 <= i < s.len(),
    ensures
        dump_count(s.update(i, x)) == dump_count(s) - s[i].dumps.len() + x.dumps.len(),
    decreases s.len(),
{
    if i < s.len() - 1 {
        assert(s.update(i, x).drop_last() =~= s.drop_last().update(i, x));
        lemma_dump_count_update(s.drop_last(), i, x);
    } else {
        assert(s.update(i, x).drop_last() =~= s.drop_last());
    }
}

proof fn lemma_code_index_bounds(codes: Seq<u64>, code: u64)
    ensures
        -1 <= code_index(codes, code) < codes.len(),
        code_index(codes, code) >= 0 ==> codes[code_index(codes, code)] == code,
    decreases codes.len(),
{
    if codes.len() > 0 {
        lemma_code_index_bounds(codes.drop_last(), code);
    }
}

proof fn lemma_load_run_lengths(cmds: Seq<DumpCommand>)
    ensures
        load_run(cmds).codes.len() == load_run(cmds).open.len(),
    decreases cmds.len(),
{
    if cmds.len() > 0 {
        lemma_load_run_lengths(cmds.drop_last());
        let prev = load_run(cmds.drop_last());
        match cmds.last() {
            DumpCommand::ChangeVector(code, _) => lemma_code_index_bounds(prev.codes, code),
            DumpCommand::ChangeScalar(code, _) => lemma_code_index_bounds(prev.codes, code),
            _ => {},
        }
    }
}

/// Loading loses no value change: the buckets it stores hold exactly as
/// many changes as the value-change section has.
pub proof fn lemma_load_keeps_every_change(cmds: Seq<DumpCommand>)
    ensures
        dump_count(loaded_buckets(cmds)) == change_count(cmds),
    decreases cmds.len(),
{
    lemma_dump_count_concat(load_run(cmds).flushed, load_run(cmds).open);
    if cmds.len() > 0 {
        let prev = load_run(cmds.drop_last());
        lemma_load_keeps_every_change(cmds.drop_last());
        lemma_load_run_lengths(cmds.drop_last());
        lemma_dump_count_concat(prev.flushed, prev.open);
        let cur = load_run(cmds);
        assert(cmds.drop_last().push(cmds.last()) =~= cmds);
        match cmds.last() {
            DumpCommand::Timestamp(t) => {
                if crosses_slice(prev.global_time, t as u32) {
                    lemma_dump_count_concat(prev.flushed, prev.open);
                    assert(dump_count(Seq::<BucketModel>::empty()) == 0);
                    assert(cur.flushed == prev.flushed + prev.open);
                    assert(cur.open == Seq::<BucketModel>::empty());
                } else {
                    assert(cur.open == prev.open);
                    assert(cur.flushed == prev.flushed);
                }
                assert(change_count(cmds) == change_count(cmds.drop_last()));
            },
            DumpCommand::ChangeVector(code, vals) => {
                let i = code_index(prev.codes, code);
                lemma_code_index_bounds(prev.codes, code);
                let entry = (prev.global_time, encode(vals@));
                if i >= 0 {
                    lemma_dump_count_update(prev.open, i, BucketModel { dumps: prev.open[i].dumps.push(entry), ..prev.open[i] });
                } else {
                    let nb = BucketModel { timestamp_range: prev.range, id: code as u32, dumps: seq![entry] };
                    assert(prev.open.push(nb).drop_last() =~= prev.open);
                }
                assert(change_count(cmds) == change_count(cmds.drop_last()) + 1);
            },
            DumpCommand::ChangeScalar(code, v) => {
                let i = code_index(prev.codes, code);
                lemma_code_index_bounds(prev.codes, code);
                let entry = (prev.global_time, encode(seq![v]));
                if i >= 0 {
                    lemma_dump_count_update(prev.open, i, BucketModel { dumps: prev.open[i].dumps.push(entry), ..prev.open[i] });
                } else {
                    let nb = BucketModel { timestamp_range: prev.range, id: code as u32, dumps: seq![entry] };
                    assert(prev.open.push(nb).drop_last() =~= prev.open);
                }
                assert(change_count(cmds) == change_count(cmds.drop_last()) + 1);
            },
            DumpCommand::Other => {},
        }
    }
}


/// Whether `r` is one whole slice of time.
pub open spec fn is_slice(r: (u32, u32)) -> bool {
    r.0 % DEFAULT_SLIZE_SIZE == 0 && r.1 == r.0 + DEFAULT_SLIZE_SIZE
}

proof fn lemma_load_run_slices(cmds: Seq<DumpCommand>)
    requires
        load_fits(cmds),
    ensures
        is_slice(load_run(cmds).range),
        forall|i: int| 0 <= i < load_run(cmds).open.len() ==> is_slice(#[trigger] load_run(cmds).open[i].timestamp_range),
        forall|i: int| 0 <= i < load_run(cmds).flushed.len() ==> is_slice(#[trigger] load_run(cmds).flushed[i].timestamp_range),
    decreases cmds.len(),
{
    if cmds.len() > 0 {
        let pre = cmds.drop_last();
        assert forall|i: int| 0 <= i < pre.len() implies !#[trigger] step_overflows(load_run(pre.take(i)), pre[i]) by {
            assert(pre.take(i) =~= cmds.take(i));
            assert(!step_overflows(load_run(cmds.take(i)), cmds[i]));
        }
        lemma_load_run_slices(pre);
        lemma_load_run_lengths(pre);
        let prev = load_run(pre);
        assert(cmds.take(cmds.len() - 1) =~= pre);
        assert(!step_overflows(load_run(cmds.take(cmds.len() - 1)), cmds[cmds.len() - 1]));
        match cmds.last() {
            DumpCommand::ChangeVector(code, _) => lemma_code_index_bounds(prev.codes, code),
            DumpCommand::ChangeScalar(code, _) => lemma_code_index_bounds(prev.codes, code),
            _ => {},
        }
    }
}

/// Every bucket that loading stores covers one whole slice: it starts at a
/// multiple of the slice size and ends one slice later, and every time
/// within it lies in the slice that starts where the bucket starts. So the
/// tree a bucket is stored under ([`Bucket::get_db_idx`]) is the tree
/// [`WaveDB::ts2key`] names for any time of its span.
pub proof fn lemma_loaded_buckets_cover_one_slice(cmds: Seq<DumpCommand>)
    requires
        load_fits(cmds),
    ensures
        forall|i: int| 0 <= i < loaded_buckets(cmds).len() ==> {
            let r = #[trigger] loaded_buckets(cmds)[i].timestamp_range;
            &&& r.0 % DEFAULT_SLIZE_SIZE == 0
            &&& r.1 == r.0 + DEFAULT_SLIZE_SIZE
            &&& forall|t: u32| r.0 <= t < r.1 ==> slice_start(t) == r.0 && range_name(r.0, r.1)
                == range_name(slice_start(t) as u32, (slice_start(t) + DEFAULT_SLIZE_SIZE) as u32)
        },
{
    lemma_load_run_slices(cmds);
    let st = load_run(cmds);
    assert forall|i: int| 0 <= i < loaded_buckets(cmds).len() implies is_slice(
        #[trigger] loaded_buckets(cmds)[i].timestamp_range,
    ) by {
        if i < st.flushed.len() {
            assert(loaded_buckets(cmds)[i] == st.flushed[i]);
        } else {
            assert(loaded_buckets(cmds)[i] == st.open[i - st.flushed.len()]);
        }
    }
}

/// Whether every change a bucket holds lies within its range of time.
pub open spec fn dumps_within(b: BucketModel) -> bool {
    forall|j: int|
        0 <= j < b.dumps.len() ==> b.timestamp_range.0 <= #[trigger] b.dumps[j].0 < b.timestamp_range.1
}

/// The slice that holds `time`, as a range.
pub open spec fn slice_of(time: u32) -> (u32, u32) {
    (slice_start(time) as u32, (slice_start(time) + DEFAULT_SLIZE_SIZE) as u32)
}

proof fn lemma_load_run_within(cmds: Seq<DumpCommand>)
    requires
        load_fits(cmds),
    ensures
        slice_start(load_run(cmds).global_time) + DEFAULT_SLIZE_SIZE <= u32::MAX,
        load_run(cmds).range == slice_of(load_run(cmds).global_time),
        forall|i: int| 0 <= i < load_run(cmds).open.len() ==> (#[trigger] load_run(cmds).open[i]).timestamp_range
            == load_run(cmds).range,
        forall|i: int| 0 <= i < load_run(cmds).open.len() ==> dumps_within(#[trigger] load_run(cmds).open[i]),
        forall|i: int| 0 <= i < load_run(cmds).flushed.len() ==> dumps_within(#[trigger] load_run(cmds).flushed[i]),
    decreases cmds.len(),
{
    if cmds.len() > 0 {
        let pre = cmds.drop_last();
        assert forall|i: int| 0 <= i < pre.len() implies !#[trigger] step_overflows(load_run(pre.take(i)), pre[i]) by {
            assert(pre.take(i) =~= cmds.take(i));
            assert(!step_overflows(load_run(cmds.take(i)), cmds[i]));
        }
        lemma_load_run_within(pre);
        lemma_load_run_lengths(pre);
        let prev = load_run(pre);
        let cur = load_run(cmds);
        assert(cmds.take(cmds.len() - 1) =~= pre);
        assert(!step_overflows(load_run(cmds.take(cmds.len() - 1)), cmds[cmds.len() - 1]));
        let gt = prev.global_time;
        assert(slice_start(gt) <= gt < slice_start(gt) + DEFAULT_SLIZE_SIZE);
        match cmds.last() {
            DumpCommand::Timestamp(t) => {
                let time = t as u32;
                if crosses_slice(gt, time) {
                    assert forall|i: int| 0 <= i < cur.flushed.len() implies dumps_within(#[trigger] cur.flushed[i]) by {
                        if i < prev.flushed.len() {
                            assert(cur.flushed[i] == prev.flushed[i]);
                        } else {
                            assert(cur.flushed[i] == prev.open[i - prev.flushed.len()]);
                        }
                    }
                }
            },
            DumpCommand::ChangeVector(code, vals) => {
                lemma_record_within(prev, code, vals@);
            },
            DumpCommand::ChangeScalar(code, v) => {
                lemma_record_within(prev, code, seq![v]);
            },
            DumpCommand::Other => {},
        }
    }
}

proof fn lemma_record_within(st: LoadState, code: u64, vals: Seq<LogicValue>)
    requires
        st.codes.len() == st.open.len(),
        st.range == slice_of(st.global_time),
        slice_start(st.global_time) + DEFAULT_SLIZE_SIZE <= u32::MAX,
        forall|i: int| 0 <= i < st.open.len() ==> (#[trigger] st.open[i]).timestamp_range == st.range,
        forall|i: int| 0 <= i < st.open.len() ==> dumps_within(#[trigger] st.open[i]),
    ensures
        record_change(st, code, vals).range == st.range,
        record_change(st, code, vals).flushed == st.flushed,
        record_change(st, code, vals).global_time == st.global_time,
        forall|i: int| 0 <= i < record_change(st, code, vals).open.len() ==> (#[trigger] record_change(
            st,
            code,
            vals,
        ).open[i]).timestamp_range == st.range,
        forall|i: int| 0 <= i < record_change(st, code, vals).open.len() ==> dumps_within(
            #[trigger] record_change(st, code, vals).open[i],
        ),
{
    lemma_code_index_bounds(st.codes, code);
    let gt = st.global_time;
    assert(slice_start(gt) <= gt < slice_start(gt) + DEFAULT_SLIZE_SIZE);
    let r = record_change(st, code, vals);
    let i = code_index(st.codes, code);
    if i >= 0 {
        assert forall|k: int| 0 <= k < r.open.len() implies dumps_within(#[trigger] r.open[k]) by {
            if k == i {
                let b = r.open[k];
                assert forall|j: int| 0 <= j < b.dumps.len() implies b.timestamp_range.0 <= #[trigger] b.dumps[j].0
                    < b.timestamp_range.1 by {
                    if j < st.open[i].dumps.len() {
                        assert(b.dumps[j] == st.open[i].dumps[j]);
                    }
                }
            }
        }
    } else {
        assert forall|k: int| 0 <= k < r.open.len() implies dumps_within(#[trigger] r.open[k]) by {
            if k < st.open.len() {
                assert(r.open[k] == st.open[k]);
            }
        }
    }
}

/// Every bucket that loading stores holds only changes from its own slice:
/// each change's time `t` of a bucket over `(a, b)` has `a <= t < b`.
pub proof fn lemma_loaded_dumps_within_slice(cmds: Seq<DumpCommand>)
    requires
        load_fits(cmds),
    ensures
        forall|i: int| 0 <= i < loaded_buckets(cmds).len() ==> dumps_within(#[trigger] loaded_buckets(cmds)[i]),
{
    lemma_load_run_within(cmds);
    let st = load_run(cmds);
    assert forall|i: int| 0 <= i < loaded_buckets(cmds).len() implies dumps_within(
        #[trigger] loaded_buckets(cmds)[i],
    ) by {
        if i < st.flushed.len() {
            assert(loaded_buckets(cmds)[i] == st.flushed[i]);
        } else {
            assert(loaded_buckets(cmds)[i] == st.open[i - st.flushed.len()]);
        }
    }
}

} // verus!
