//! Bounded columnar batching of parsed records.
//!
//! Successful records are flattened into six parallel columns: the raw
//! domain code, the language, and the nullable resolved domain are
//! dictionary-encoded (each distinct string stored once, with an integer
//! key per row); the page title, the view count, and the mobile flag are
//! stored plainly. Batches are bounded: a chunk is emitted once it holds
//! the configured number of records, and a final partial chunk carries the
//! remainder. Failures are skipped without counting toward a batch. A
//! dictionary that can no longer intern a value is fatal: the in-progress
//! chunk is abandoned rather than emitted partially.

use vstd::prelude::*;

verus! {

use crate::parse::{DomainCodeView, Pageviews, PageviewsView, ParseError};
use vstd::arithmetic::mul::lemma_mul_inequality;

/// The sole fatal encoding condition: a dictionary key could not be
/// allocated for a new value, so the in-progress chunk cannot be trusted.
#[derive(Debug)]
pub enum EncodeError {
    BatchCorruption,
}

/// Default batch size: the default row-group size of the downstream
/// columnar file format.
pub const DEFAULT_BATCH_SIZE: usize = 122880;

/// Largest number of distinct values a dictionary column can hold: its
/// keys are 32-bit signed integers.
pub const MAX_DICT_VALUES: usize = 0x7fff_ffff;

/// A dictionary-encoded string column: one key per row, indexing into a
/// table of distinct values.
pub struct DictColumn {
    keys: Vec<i32>,
    values: Vec<String>,
}

impl DictColumn {
    /// The per-row keys.
    pub closed spec fn keys_seq(self) -> Seq<i32> {
        self.keys@
    }

    /// The distinct-value table.
    pub closed spec fn values_seq(self) -> Seq<Seq<char>> {
        self.values@.map_values(|s: String| s@)
    }

    pub open spec fn num_values(self) -> nat {
        self.values_seq().len()
    }

    /// Every key is in range, the value table is duplicate-free, and the
    /// table never outgrows the key type.
    pub open spec fn wf(self) -> bool {
        &&& forall|i: int|
            0 <= i < self.keys_seq().len() ==> 0 <= #[trigger] self.keys_seq()[i]
                < self.values_seq().len()
        &&& forall|i: int, j: int|
            0 <= i < j < self.values_seq().len() ==> self.values_seq()[i] != self.values_seq()[j]
        &&& self.values_seq().len() <= MAX_DICT_VALUES
    }

    /// The logical column: the value each row's key points at.
    pub open spec fn content(self) -> Seq<Seq<char>> {
        Seq::new(self.keys_seq().len(), |i: int| self.values_seq()[self.keys_seq()[i] as int])
    }

    /// Whether `v` is already interned.
    pub open spec fn has_value(self, v: Seq<char>) -> bool {
        exists|i: int| 0 <= i < self.values_seq().len() && #[trigger] self.values_seq()[i] == v
    }

    /// An empty dictionary column.
    pub fn new() -> (r: Self)
        ensures
            r.wf(),
            r.content() == Seq::<Seq<char>>::empty(),
            r.num_values() == 0,
    {
        let r = DictColumn { keys: Vec::new(), values: Vec::new() };
        proof {
            assert(r.content() =~= Seq::<Seq<char>>::empty());
        }
        r
    }

    fn find(&self, v: &String) -> (r: Option<usize>)
        ensures
            match r {
                Some(k) => k < self.values_seq().len() && self.values_seq()[k as int] == v@,
                None => !self.has_value(v@),
            },
    {
        let mut i: usize = 0;
        while i < self.values.len()
            invariant
                i <= self.values@.len(),
                self.values_seq().len() == self.values@.len(),
                forall|j: int| 0 <= j < i ==> #[trigger] self.values_seq()[j] != v@,
            decreases self.values@.len() - i,
        {
            if self.values[i] == *v {
                return Some(i);
            }
            i += 1;
        }
        None
    }

    /// Appends one row holding `v`, interning it if it is new. Fails, with
    /// the column unchanged, exactly when `v` is new and the value table is
    /// full.
    pub fn push(&mut self, v: &String) -> (r: Result<(), EncodeError>)
        requires
            old(self).wf(),
        ensures
            r is Ok <==> (old(self).has_value(v@) || old(self).num_values() < MAX_DICT_VALUES),
            r is Ok ==> {
                &&& final(self).wf()
                &&& final(self).content() == old(self).content().push(v@)
                &&& final(self).num_values() <= old(self).num_values() + 1
            },
            r is Err ==> *final(self) == *old(self),
    {
        match self.find(v) {
            Some(k) => {
                self.keys.push(k as i32);
                proof {
                    assert(final(self).content() =~= old(self).content().push(v@));
                }
                Ok(())
            },
            None => {
                if self.values.len() < MAX_DICT_VALUES {
                    let k = self.values.len();
                    self.values.push(v.clone());
                    self.keys.push(k as i32);
                    proof {
                        assert(final(self).values_seq() =~= old(self).values_seq().push(v@));
                        assert(final(self).content() =~= old(self).content().push(v@));
                    }
                    Ok(())
                } else {
                    Err(EncodeError::BatchCorruption)
                }
            },
        }
    }

    /// Number of rows.
    pub fn row_count(&self) -> (n: usize)
        ensures
            n == self.content().len(),
    {
        self.keys.len()
    }

    /// Number of distinct interned values.
    pub fn value_count(&self) -> (n: usize)
        ensures
            n == self.num_values(),
    {
        self.values.len()
    }

    /// The key stored for row `i`.
    pub fn key_at(&self, i: usize) -> (k: i32)
        requires
            self.wf(),
            i < self.content().len(),
        ensures
            k == self.keys_seq()[i as int],
            0 <= k < self.num_values(),
            self.values_seq()[k as int] == self.content()[i as int],
    {
        self.keys[i]
    }

    /// The interned value for key `k`.
    pub fn value_at(&self, k: usize) -> (v: &String)
        requires
            k < self.num_values(),
        ensures
            v@ == self.values_seq()[k as int],
    {
        &self.values[k]
    }
}

/// A dictionary-encoded nullable string column: each row holds a key or is
/// null.
pub struct NullableDictColumn {
    keys: Vec<Option<i32>>,
    values: Vec<String>,
}

impl NullableDictColumn {
    pub closed spec fn keys_seq(self) -> Seq<Option<i32>> {
        self.keys@
    }

    pub closed spec fn values_seq(self) -> Seq<Seq<char>> {
        self.values@.map_values(|s: String| s@)
    }

    pub open spec fn num_values(self) -> nat {
        self.values_seq().len()
    }

    pub open spec fn wf(self) -> bool {
        &&& forall|i: int|
            0 <= i < self.keys_seq().len() ==> ((#[trigger] self.keys_seq()[i]) matches Some(k)
                ==> 0 <= k < self.values_seq().len())
        &&& forall|i: int, j: int|
            0 <= i < j < self.values_seq().len() ==> self.values_seq()[i] != self.values_seq()[j]
        &&& self.values_seq().len() <= MAX_DICT_VALUES
    }

    /// The logical column: the value each row's key points at, or nothing.
    pub open spec fn content(self) -> Seq<Option<Seq<char>>> {
        Seq::new(
            self.keys_seq().len(),
            |i: int|
                match self.keys_seq()[i] {
                    Some(k) => Some(self.values_seq()[k as int]),
                    None => None,
                },
        )
    }

    pub open spec fn has_value(self, v: Seq<char>) -> bool {
        exists|i: int| 0 <= i < self.values_seq().len() && #[trigger] self.values_seq()[i] == v
    }

    /// An empty nullable dictionary column.
    pub fn new() -> (r: Self)
        ensures
            r.wf(),
            r.content() == Seq::<Option<Seq<char>>>::empty(),
            r.num_values() == 0,
    {
        let r = NullableDictColumn { keys: Vec::new(), values: Vec::new() };
        proof {
            assert(r.content() =~= Seq::<Option<Seq<char>>>::empty());
        }
        r
    }

    fn find(&self, v: &String) -> (r: Option<usize>)
        ensures
            match r {
                Some(k) => k < self.values_seq().len() && self.values_seq()[k as int] == v@,
                None => !self.has_value(v@),
            },
    {
        let mut i: usize = 0;
        while i < self.values.len()
            invariant
                i <= self.values@.len(),
                self.values_seq().len() == self.values@.len(),
                forall|j: int| 0 <= j < i ==> #[trigger] self.values_seq()[j] != v@,
            decreases self.values@.len() - i,
        {
            if self.values[i] == *v {
                return Some(i);
            }
            i += 1;
        }
        None
    }

    /// Appends one row holding `v` or null. Fails, with the column
    /// unchanged, exactly when the value is new and the value table is
    /// full.
    pub fn push(&mut self, v: &Option<String>) -> (r: Result<(), EncodeError>)
        requires
            old(self).wf(),
        ensures
            r is Ok <==> match *v {
                Some(s) => old(self).has_value(s@) || old(self).num_values() < MAX_DICT_VALUES,
                None => true,
            },
            r is Ok ==> {
                &&& final(self).wf()
                &&& final(self).content() == old(self).content().push(
                    match *v {
                        Some(s) => Some(s@),
                        None => None,
                    },
                )
                &&& final(self).num_values() <= old(self).num_values() + 1
            },
            r is Err ==> *final(self) == *old(self),
    {
        match v {
            Some(s) => match self.find(s) {
                Some(k) => {
                    self.keys.push(Some(k as i32));
                    proof {
                        assert(final(self).content() =~= old(self).content().push(Some(s@)));
                    }
                    Ok(())
                },
                None => {
                    if self.values.len() < MAX_DICT_VALUES {
                        let k = self.values.len();
                        self.values.push(s.clone());
                        self.keys.push(Some(k as i32));
                        proof {
                            assert(final(self).values_seq() =~= old(self).values_seq().push(s@));
                            assert(final(self).content() =~= old(self).content().push(Some(s@)));
                        }
                        Ok(())
                    } else {
                        Err(EncodeError::BatchCorruption)
                    }
                },
            },
            None => {
                self.keys.push(None);
                proof {
                    assert(final(self).content() =~= old(self).content().push(
                        None::<Seq<char>>,
                    ));
                }
                Ok(())
            },
        }
    }

    /// Number of rows.
    pub fn row_count(&self) -> (n: usize)
        ensures
            n == self.content().len(),
    {
        self.keys.len()
    }

    /// Number of distinct interned values.
    pub fn value_count(&self) -> (n: usize)
        ensures
            n == self.num_values(),
    {
        self.values.len()
    }

    /// The key stored for row `i`, or nothing for a null row.
    pub fn key_at(&self, i: usize) -> (k: Option<i32>)
        requires
            self.wf(),
            i < self.content().len(),
        ensures
            k == self.keys_seq()[i as int],
            k matches Some(kk) ==> 0 <= kk < self.num_values() && self.values_seq()[kk as int]
                == self.content()[i as int]->Some_0,
            k is None ==> self.content()[i as int] is None,
    {
        self.keys[i]
    }

    /// The interned value for key `k`.
    pub fn value_at(&self, k: usize) -> (v: &String)
        requires
            k < self.num_values(),
        ensures
            v@ == self.values_seq()[k as int],
    {
        &self.values[k]
    }
}

// ---------------------------------------------------------------------------
// Chunks
// ---------------------------------------------------------------------------

/// One finished batch: six parallel columns of equal length, where index
/// `i` across all six describes the same source record. Handed off once
/// finished and never mutated afterward.
pub struct Chunk {
    pub domain_code: DictColumn,
    pub page_title: Vec<String>,
    pub views: Vec<u32>,
    pub language: DictColumn,
    pub domain: NullableDictColumn,
    pub mobile: Vec<bool>,
}

impl Chunk {
    pub open spec fn wf(self) -> bool {
        &&& self.domain_code.wf()
        &&& self.language.wf()
        &&& self.domain.wf()
        &&& self.domain_code.content().len() == self.views@.len()
        &&& self.page_title@.len() == self.views@.len()
        &&& self.language.content().len() == self.views@.len()
        &&& self.domain.content().len() == self.views@.len()
        &&& self.mobile@.len() == self.views@.len()
    }

    /// The record described by row `i` of all six columns.
    pub open spec fn spec_row(self, i: int) -> PageviewsView {
        PageviewsView {
            domain_code: self.domain_code.content()[i],
            page_title: self.page_title@[i]@,
            views: self.views@[i],
            parsed_domain_code: DomainCodeView {
                language: self.language.content()[i],
                domain: self.domain.content()[i],
                mobile: self.mobile@[i],
            },
        }
    }

    /// The records of the chunk, in input order.
    pub open spec fn content(self) -> Seq<PageviewsView> {
        Seq::new(self.views@.len(), |i: int| self.spec_row(i))
    }

    /// Number of records in the chunk.
    pub fn num_rows(&self) -> (n: usize)
        ensures
            n == self.content().len(),
    {
        self.views.len()
    }
}

/// Accumulates records into the six columns of the chunk being built.
pub struct ChunkBuilder {
    domain_code: DictColumn,
    page_title: Vec<String>,
    views: Vec<u32>,
    language: DictColumn,
    domain: NullableDictColumn,
    mobile: Vec<bool>,
}

impl ChunkBuilder {
    /// Columns well-formed and aligned, and no dictionary holding more
    /// distinct values than it has rows.
    pub closed spec fn wf(self) -> bool {
        &&& self.domain_code.wf()
        &&& self.language.wf()
        &&& self.domain.wf()
        &&& self.domain_code.content().len() == self.views@.len()
        &&& self.page_title@.len() == self.views@.len()
        &&& self.language.content().len() == self.views@.len()
        &&& self.domain.content().len() == self.views@.len()
        &&& self.mobile@.len() == self.views@.len()
        &&& self.domain_code.num_values() <= self.views@.len()
        &&& self.language.num_values() <= self.views@.len()
        &&& self.domain.num_values() <= self.views@.len()
    }

    pub closed spec fn spec_row(self, i: int) -> PageviewsView {
        PageviewsView {
            domain_code: self.domain_code.content()[i],
            page_title: self.page_title@[i]@,
            views: self.views@[i],
            parsed_domain_code: DomainCodeView {
                language: self.language.content()[i],
                domain: self.domain.content()[i],
                mobile: self.mobile@[i],
            },
        }
    }

    /// The records accumulated so far, in input order.
    pub closed spec fn content(self) -> Seq<PageviewsView> {
        Seq::new(self.views@.len(), |i: int| self.spec_row(i))
    }

    /// An empty builder.
    pub fn new() -> (r: Self)
        ensures
            r.wf(),
            r.content() == Seq::<PageviewsView>::empty(),
    {
        let r = ChunkBuilder {
            domain_code: DictColumn::new(),
            page_title: Vec::new(),
            views: Vec::new(),
            language: DictColumn::new(),
            domain: NullableDictColumn::new(),
            mobile: Vec::new(),
        };
        proof {
            assert(r.content() =~= Seq::<PageviewsView>::empty());
        }
        r
    }

    /// Number of records accumulated so far.
    pub fn row_count(&self) -> (n: usize)
        ensures
            n == self.content().len(),
    {
        self.views.len()
    }

    /// Appends the six derived values of one record. Succeeds whenever the
    /// builder holds fewer rows than a dictionary can hold distinct values;
    /// on failure the chunk under construction is no longer trustworthy and
    /// must be abandoned.
    pub fn push_record(&mut self, row: &Pageviews) -> (r: Result<(), EncodeError>)
        requires
            old(self).wf(),
        ensures
            r is Ok ==> {
                &&& final(self).wf()
                &&& final(self).content() == old(self).content().push(row@)
            },
            old(self).content().len() < MAX_DICT_VALUES ==> r is Ok,
    {
        let ghost prev = *self;
        match self.domain_code.push(&row.domain_code) {
            Ok(()) => (),
            Err(e) => {
                return Err(e);
            },
        }
        match self.language.push(&row.parsed_domain_code.language) {
            Ok(()) => (),
            Err(e) => {
                return Err(e);
            },
        }
        match self.domain.push(&row.parsed_domain_code.domain) {
            Ok(()) => (),
            Err(e) => {
                return Err(e);
            },
        }
        self.page_title.push(row.page_title.clone());
        self.views.push(row.views);
        self.mobile.push(row.parsed_domain_code.mobile);
        proof {
            let n = prev.content().len() as int;
            assert forall|i: int| 0 <= i < n implies (*self).content()[i] == prev.content()[i] by {
                assert((*self).spec_row(i) =~~= prev.spec_row(i));
            }
            assert((*self).spec_row(n) =~~= row@);
            assert((*self).content() =~= prev.content().push(row@));
        }
        Ok(())
    }

    /// Freezes the accumulated columns into an immutable chunk.
    pub fn finish(self) -> (c: Chunk)
        requires
            self.wf(),
        ensures
            c.wf(),
            c.content() == self.content(),
    {
        let ghost b = self;
        let c = Chunk {
            domain_code: self.domain_code,
            page_title: self.page_title,
            views: self.views,
            language: self.language,
            domain: self.domain,
            mobile: self.mobile,
        };
        proof {
            assert forall|i: int| 0 <= i < c.content().len() implies c.content()[i]
                == b.content()[i] by {
                assert(c.spec_row(i) =~~= b.spec_row(i));
            }
            assert(c.content() =~= b.content());
        }
        c
    }
}

// ---------------------------------------------------------------------------
// Bounded batching
// ---------------------------------------------------------------------------

/// Views of the successful records of `s`, in order; failures are dropped.
pub open spec fn ok_rows(s: Seq<Result<Pageviews, ParseError>>) -> Seq<PageviewsView>
    decreases s.len(),
{
    if s.len() == 0 {
        Seq::empty()
    } else {
        match s[0] {
            Ok(pv) => seq![pv@] + ok_rows(s.drop_first()),
            Err(_) => ok_rows(s.drop_first()),
        }
    }
}

proof fn lemma_ok_rows_append(a: Seq<Result<Pageviews, ParseError>>, b: Seq<
    Result<Pageviews, ParseError>,
>)
    ensures
        ok_rows(a + b) == ok_rows(a) + ok_rows(b),
    decreases a.len(),
{
    if a.len() == 0 {
        assert(a + b =~= b);
        assert(ok_rows(a) + ok_rows(b) =~= ok_rows(b));
    } else {
        lemma_ok_rows_append(a.drop_first(), b);
        assert((a + b).drop_first() =~= a.drop_first() + b);
        assert((a + b)[0] == a[0]);
        match a[0] {
            Ok(pv) => {
                assert(seq![pv@] + (ok_rows(a.drop_first()) + ok_rows(b)) =~= (seq![pv@]
                    + ok_rows(a.drop_first())) + ok_rows(b));
            },
            Err(_) => {},
        }
    }
}

/// Extending the processed prefix by one record extends its successful
/// rows by that record's view, or not at all for a failure.
proof fn lemma_ok_rows_step(s: Seq<Result<Pageviews, ParseError>>, i: int)
    requires
        0 <= i < s.len(),
    ensures
        ok_rows(s.take(i + 1)) == match s[i] {
            Ok(pv) => ok_rows(s.take(i)).push(pv@),
            Err(_) => ok_rows(s.take(i)),
        },
{
    let single = seq![s[i]];
    assert(s.take(i + 1) =~= s.take(i) + single);
    lemma_ok_rows_append(s.take(i), single);
    assert(single.len() == 1 && single[0] == s[i]);
    assert(single.drop_first() =~= Seq::<Result<Pageviews, ParseError>>::empty());
    assert(ok_rows(Seq::<Result<Pageviews, ParseError>>::empty()) == Seq::<PageviewsView>::empty());
    match s[i] {
        Ok(pv) => {
            assert(ok_rows(single) == seq![pv@] + ok_rows(single.drop_first()));
            assert(ok_rows(single) =~= seq![pv@]);
            assert(ok_rows(s.take(i)) + seq![pv@] =~= ok_rows(s.take(i)).push(pv@));
        },
        Err(_) => {
            assert(ok_rows(single) == ok_rows(single.drop_first()));
            assert(ok_rows(single) =~= Seq::<PageviewsView>::empty());
            assert(ok_rows(s.take(i)) + ok_rows(single) =~= ok_rows(s.take(i)));
        },
    }
}

/// The batch size actually used: the given one, or the default.
pub open spec fn spec_batch_size(batch_size: Option<usize>) -> int {
    match batch_size {
        Some(b) => b as int,
        None => DEFAULT_BATCH_SIZE as int,
    }
}

/// The slice of the successful-record stream that chunk `k` holds at batch
/// size `b`: rows `k * b` up to the next multiple of `b` or the end.
pub open spec fn spec_chunk_of(rows: Seq<PageviewsView>, b: int, k: int) -> Seq<PageviewsView> {
    rows.subrange(
        k * b,
        if (k + 1) * b <= rows.len() {
            (k + 1) * b
        } else {
            rows.len() as int
        },
    )
}

/// Every chunk slice holds exactly `b` rows, except the last, which
/// carries the remainder of the row count by `b` (or `b` itself when the
/// count is an exact multiple).
pub proof fn lemma_chunk_sizes(rows: Seq<PageviewsView>, b: int, k: int)
    requires
        b >= 1,
        0 <= k,
        k * b < rows.len(),
    ensures
        spec_chunk_of(rows, b, k).len() == if (k + 1) * b <= rows.len() {
            b
        } else {
            rows.len() - k * b
        },
{
    assert(0 <= k * b && k * b + b == (k + 1) * b) by (nonlinear_arith)
        requires
            k >= 0,
            b >= 1,
    ;
}

/// Groups the successful records of `records` into chunks of `batch_size`
/// rows in input order, the last chunk carrying the remainder; failures
/// are skipped without counting toward a batch, and zero successful
/// records yield no chunk. `None` selects the default batch size. `N`
/// successful records make exactly `(N + B - 1) / B` chunks. Fails only
/// when one chunk would need more distinct dictionary values than keys
/// exist, which no batch size up to `MAX_DICT_VALUES` can reach.
pub fn chunks_from_structs(
    records: &Vec<Result<Pageviews, ParseError>>,
    batch_size: Option<usize>,
) -> (r: Result<Vec<Chunk>, EncodeError>)
    requires
        batch_size matches Some(b) ==> b >= 1,
    ensures
        ({
            let b = spec_batch_size(batch_size);
            let rows = ok_rows(records@);
            &&& (b <= MAX_DICT_VALUES ==> r is Ok)
            &&& (r matches Err(e) ==> b > MAX_DICT_VALUES && e == EncodeError::BatchCorruption)
            &&& (r matches Ok(chunks) ==> {
                &&& chunks@.len() == (rows.len() + b - 1) / b
                &&& forall|k: int| 0 <= k < chunks@.len() ==> (#[trigger] chunks@[k]).wf()
                &&& forall|k: int|
                    0 <= k < chunks@.len() ==> (#[trigger] chunks@[k]).content() == spec_chunk_of(
                        rows,
                        b,
                        k,
                    )
            })
        }),
{
    let b: usize = match batch_size {
        Some(x) => x,
        None => DEFAULT_BATCH_SIZE,
    };
    let mut chunks: Vec<Chunk> = Vec::new();
    let mut cur = ChunkBuilder::new();
    let mut count: usize = 0;
    let mut i: usize = 0;
    proof {
        assert(records@.take(0) =~= Seq::<Result<Pageviews, ParseError>>::empty());
        assert(cur.content() =~= ok_rows(records@.take(0)).skip(0));
    }
    while i < records.len()
        invariant
            i <= records@.len(),
            b as int == spec_batch_size(batch_size),
            b >= 1,
            cur.wf(),
            count == cur.content().len(),
            count < b,
            ok_rows(records@.take(i as int)).len() == chunks@.len() * (b as int) + count,
            cur.content() == ok_rows(records@.take(i as int)).skip(
                (chunks@.len() as int) * (b as int),
            ),
            forall|k: int| 0 <= k < chunks@.len() ==> (#[trigger] chunks@[k]).wf(),
            forall|k: int|
                0 <= k < chunks@.len() ==> (#[trigger] chunks@[k]).content() == ok_rows(
                    records@.take(i as int),
                ).subrange(k * (b as int), (k + 1) * (b as int)),
        decreases records@.len() - i,
    {
        let ghost done_pre = ok_rows(records@.take(i as int));
        let ghost m = chunks@.len() as int;
        let ghost bi = b as int;
        proof {
            lemma_ok_rows_step(records@, i as int);
        }
        match &records[i] {
            Ok(row) => {
                let ghost done = ok_rows(records@.take(i as int + 1));
                match cur.push_record(row) {
                    Ok(()) => (),
                    Err(_) => {
                        return Err(EncodeError::BatchCorruption);
                    },
                }
                count += 1;
                proof {
                    assert(0 <= m * bi) by (nonlinear_arith)
                        requires
                            m >= 0,
                            bi >= 0,
                    ;
                    assert(done =~= done_pre.push(row@));
                    assert(done.skip(m * bi) =~= done_pre.skip(m * bi).push(row@));
                    assert forall|k: int| 0 <= k < m implies #[trigger] done.subrange(
                        k * bi,
                        (k + 1) * bi,
                    ) =~= done_pre.subrange(k * bi, (k + 1) * bi) by {
                        lemma_mul_inequality(k + 1, m, bi);
                        assert(0 <= k * bi && k * bi + bi == (k + 1) * bi) by (nonlinear_arith)
                            requires
                                k >= 0,
                                bi >= 1,
                        ;
                    }
                }
                if count == b {
                    let mut full = ChunkBuilder::new();
                    core::mem::swap(&mut cur, &mut full);
                    let chunk = full.finish();
                    proof {
                        assert(0 <= m * bi && (m + 1) * bi == m * bi + bi) by (nonlinear_arith)
                            requires
                                m >= 0,
                                bi >= 1,
                        ;
                        assert(done.len() == m * bi + bi);
                        assert(chunk.content() =~= done.subrange(m * bi, (m + 1) * bi));
                    }
                    chunks.push(chunk);
                    count = 0;
                    proof {
                        assert(done.len() == (m + 1) * bi);
                        assert(cur.content() =~= done.skip((m + 1) * bi));
                    }
                }
            },
            Err(_) => {
                proof {
                    assert(ok_rows(records@.take(i as int + 1)) == done_pre);
                }
            },
        }
        i += 1;
    }
    proof {
        assert(records@.take(records@.len() as int) =~= records@);
    }
    let ghost rows = ok_rows(records@);
    let ghost m = chunks@.len() as int;
    let ghost bi = b as int;
    if count > 0 {
        let chunk = cur.finish();
        proof {
            assert(0 <= m * bi && (m + 1) * bi == m * bi + bi) by (nonlinear_arith)
                requires
                    m >= 0,
                    bi >= 1,
            ;
            assert(rows.len() == m * bi + count);
            assert(rows.skip(m * bi) =~= rows.subrange(m * bi, rows.len() as int));
            assert(chunk.content() =~= spec_chunk_of(rows, bi, m));
        }
        chunks.push(chunk);
        proof {
            assert((m + 1) * bi == m * bi + bi) by (nonlinear_arith)
                requires
                    m >= 0,
                    bi >= 1,
            ;
            assert(rows.len() + bi - 1 == (m + 1) * bi + (count - 1));
            vstd::arithmetic::div_mod::lemma_fundamental_div_mod_converse(
                rows.len() + bi - 1,
                bi,
                m + 1,
                count - 1,
            );
            assert forall|k: int| 0 <= k < m implies (#[trigger] chunks@[k]).content()
                == spec_chunk_of(rows, bi, k) by {
                lemma_mul_inequality(k + 1, m, bi);
                assert(0 <= k * bi && k * bi + bi == (k + 1) * bi) by (nonlinear_arith)
                    requires
                        k >= 0,
                        bi >= 1,
                ;
            }
        }
    } else {
        proof {
            assert(rows.len() + bi - 1 == m * bi + (bi - 1));
            vstd::arithmetic::div_mod::lemma_fundamental_div_mod_converse(
                rows.len() + bi - 1,
                bi,
                m,
                bi - 1,
            );
            assert forall|k: int| 0 <= k < m implies (#[trigger] chunks@[k]).content()
                == spec_chunk_of(rows, bi, k) by {
                lemma_mul_inequality(k + 1, m, bi);
                assert(0 <= k * bi && k * bi + bi == (k + 1) * bi) by (nonlinear_arith)
                    requires
                        k >= 0,
                        bi >= 1,
                ;
            }
        }
    }
    Ok(chunks)
}

} // verus!
