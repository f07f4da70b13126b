use vstd::prelude::*;

use crate::strutil::{dec_of, str_eq, u64_to_string};

verus! {

// ---------------------------------------------------------------------------
// Labeled counters
// ---------------------------------------------------------------------------

/// A monotone counter keyed by a label combination, the observability
/// handle's building block.  Counts saturate instead of wrapping.
pub struct LabelCounter {
    pub entries: Vec<(Vec<String>, u64)>,
}

/// The count recorded under exactly this label combination (first
/// matching entry; zero when none).
pub open spec fn counter_get(entries: Seq<(Vec<String>, u64)>, labels: Seq<Seq<char>>) -> int
    decreases entries.len(),
{
    if entries.len() == 0 {
        0
    } else if entries[0].0.deep_view() == labels {
        entries[0].1 as int
    } else {
        counter_get(entries.drop_first(), labels)
    }
}

/// Addition that sticks at the largest 64-bit value.
pub open spec fn sat_add(a: int, n: int) -> int {
    if a + n > 0xffff_ffff_ffff_ffff {
        0xffff_ffff_ffff_ffff
    } else {
        a + n
    }
}

/// One observation: the count under `labels` grew by `n` (saturating),
/// every other label combination is untouched.
pub open spec fn spec_inc(old_c: LabelCounter, new_c: LabelCounter, labels: Seq<Seq<char>>, n: int) -> bool {
    &&& counter_get(new_c.entries@, labels) == sat_add(counter_get(old_c.entries@, labels), n)
    &&& forall|l: Seq<Seq<char>>|
        l != labels ==> counter_get(new_c.entries@, l) == counter_get(old_c.entries@, l)
}

/// Whether two label vectors carry the same strings.
fn labels_eq(a: &Vec<String>, b: &Vec<String>) -> (r: bool)
    ensures
        r == (a.deep_view() == b.deep_view()),
{
    let n = a.len();
    if n != b.len() {
        proof {
            assert(a.deep_view().len() == a@.len());
            assert(b.deep_view().len() == b@.len());
        }
        return false;
    }
    let mut i: usize = 0;
    while i < n
        invariant
            n == a@.len(),
            n == b@.len(),
            i <= n,
            forall|k: int| 0 <= k < i ==> a.deep_view()[k] == b.deep_view()[k],
        decreases n - i,
    {
        if !str_eq(a[i].as_str(), b[i].as_str()) {
            assert(a.deep_view()[i as int] != b.deep_view()[i as int]);
            return false;
        }
        assert(a.deep_view()[i as int] == b.deep_view()[i as int]);
        i = i + 1;
    }
    proof {
        assert(a.deep_view() =~= b.deep_view());
    }
    true
}

proof fn lemma_counter_update(
    entries: Seq<(Vec<String>, u64)>,
    i: int,
    newval: u64,
    labels: Seq<Seq<char>>,
)
    requires
        0 <= i < entries.len(),
        entries[i].0.deep_view() == labels,
        forall|k: int| 0 <= k < i ==> entries[k].0.deep_view() != labels,
    ensures
        counter_get(entries.update(i, (entries[i].0, newval)), labels) == newval,
        forall|l: Seq<Seq<char>>|
            l != labels ==> counter_get(entries.update(i, (entries[i].0, newval)), l)
                == counter_get(entries, l),
    decreases entries.len(),
{
    let upd = entries.update(i, (entries[i].0, newval));
    if i == 0 {
        assert(upd[0] == (entries[0].0, newval));
        assert(upd[0].0.deep_view() == labels);
        assert forall|l: Seq<Seq<char>>| l != labels implies counter_get(upd, l) == counter_get(
            entries,
            l,
        ) by {
            assert(upd.drop_first() =~= entries.drop_first());
            assert(counter_get(upd, l) == counter_get(upd.drop_first(), l));
            assert(counter_get(entries, l) == counter_get(entries.drop_first(), l));
        }
    } else {
        assert forall|k: int|
            0 <= k < i - 1 implies entries.drop_first()[k].0.deep_view() != labels by {
            assert(entries.drop_first()[k] == entries[k + 1]);
        }
        assert(entries.drop_first()[i - 1] == entries[i]);
        lemma_counter_update(entries.drop_first(), i - 1, newval, labels);
        let upd_d = entries.drop_first().update(i - 1, (entries.drop_first()[i - 1].0, newval));
        assert(upd.drop_first() =~= upd_d);
        assert(upd[0] == entries[0]);
        assert(entries[0].0.deep_view() != labels);
        assert(counter_get(upd, labels) == counter_get(upd_d, labels));
        assert forall|l: Seq<Seq<char>>| l != labels implies counter_get(upd, l) == counter_get(
            entries,
            l,
        ) by {
            if upd[0].0.deep_view() != l {
                assert(counter_get(upd, l) == counter_get(upd_d, l));
                assert(counter_get(upd_d, l) == counter_get(entries.drop_first(), l));
                assert(counter_get(entries, l) == counter_get(entries.drop_first(), l));
            }
        }
    }
}

proof fn lemma_counter_push(
    entries: Seq<(Vec<String>, u64)>,
    lv: Vec<String>,
    v: u64,
    labels: Seq<Seq<char>>,
)
    requires
        lv.deep_view() == labels,
        forall|k: int| 0 <= k < entries.len() ==> entries[k].0.deep_view() != labels,
    ensures
        counter_get(entries.push((lv, v)), labels) == v,
        forall|l: Seq<Seq<char>>|
            l != labels ==> counter_get(entries.push((lv, v)), l) == counter_get(entries, l),
    decreases entries.len(),
{
    let ext = entries.push((lv, v));
    if entries.len() == 0 {
        assert(ext[0] == (lv, v));
        assert(ext[0].0.deep_view() == labels);
        assert(counter_get(ext, labels) == v);
        assert forall|l: Seq<Seq<char>>| l != labels implies counter_get(ext, l) == counter_get(
            entries,
            l,
        ) by {
            assert(ext.drop_first() =~= Seq::<(Vec<String>, u64)>::empty());
            assert(counter_get(ext, l) == counter_get(ext.drop_first(), l));
            assert(counter_get(ext.drop_first(), l) == 0);
            assert(counter_get(entries, l) == 0);
        }
    } else {
        assert forall|k: int|
            0 <= k < entries.drop_first().len() implies entries.drop_first()[k].0.deep_view()
            != labels by {
            assert(entries.drop_first()[k] == entries[k + 1]);
        }
        lemma_counter_push(entries.drop_first(), lv, v, labels);
        let ext_d = entries.drop_first().push((lv, v));
        assert(ext[0] == entries[0]);
        assert(ext.drop_first() =~= ext_d);
        assert(entries[0].0.deep_view() != labels);
        assert(counter_get(ext, labels) == counter_get(ext_d, labels));
        assert forall|l: Seq<Seq<char>>| l != labels implies counter_get(ext, l) == counter_get(
            entries,
            l,
        ) by {
            if ext[0].0.deep_view() != l {
                assert(counter_get(ext, l) == counter_get(ext_d, l));
                assert(counter_get(ext_d, l) == counter_get(entries.drop_first(), l));
                assert(counter_get(entries, l) == counter_get(entries.drop_first(), l));
            }
        }
    }
}

impl LabelCounter {
    /// An empty counter family.
    pub fn new() -> (r: Self)
        ensures
            forall|l: Seq<Seq<char>>| counter_get(r.entries@, l) == 0,
    {
        LabelCounter { entries: Vec::new() }
    }

    /// Add `n` to the count under `labels`, saturating; no other label
    /// combination changes.
    pub fn inc_by(&mut self, labels: Vec<String>, n: u64)
        ensures
            spec_inc(*old(self), *final(self), labels.deep_view(), n as int),
    {
        let len = self.entries.len();
        let mut i: usize = 0;
        while i < len
            invariant
                len == self.entries@.len(),
                i <= len,
                forall|k: int| 0 <= k < i ==> self.entries@[k].0.deep_view() != labels.deep_view(),
                self == old(self),
            decreases len - i,
        {
            if labels_eq(&self.entries[i].0, &labels) {
                let cur = self.entries[i].1;
                let newv: u64 = if cur > u64::MAX - n {
                    u64::MAX
                } else {
                    cur + n
                };
                let ghost pre = self.entries@;
                proof {
                    lemma_counter_first_match(pre, i as int, labels.deep_view());
                    lemma_counter_update(pre, i as int, newv, labels.deep_view());
                }
                self.entries[i].1 = newv;
                proof {
                    assert(self.entries@ =~= pre.update(i as int, (pre[i as int].0, newv)));
                }
                return ;
            }
            i = i + 1;
        }
        let ghost pre = self.entries@;
        proof {
            lemma_counter_no_match(pre, labels.deep_view());
            lemma_counter_push(pre, labels, n, labels.deep_view());
        }
        self.entries.push((labels, n));
    }
}

/// The count under a label combination whose first match holds `v` is
/// `v`.
proof fn lemma_counter_first_match(entries: Seq<(Vec<String>, u64)>, i: int, labels: Seq<Seq<char>>)
    requires
        0 <= i < entries.len(),
        entries[i].0.deep_view() == labels,
        forall|k: int| 0 <= k < i ==> entries[k].0.deep_view() != labels,
    ensures
        counter_get(entries, labels) == entries[i].1 as int,
    decreases i,
{
    if i > 0 {
        lemma_counter_first_match(entries.drop_first(), i - 1, labels);
    }
}

/// No matching entry means count zero.
proof fn lemma_counter_no_match(entries: Seq<(Vec<String>, u64)>, labels: Seq<Seq<char>>)
    requires
        forall|k: int| 0 <= k < entries.len() ==> entries[k].0.deep_view() != labels,
    ensures
        counter_get(entries, labels) == 0,
    decreases entries.len(),
{
    if entries.len() > 0 {
        assert forall|k: int|
            0 <= k < entries.drop_first().len() implies entries.drop_first()[k].0.deep_view()
            != labels by {
            assert(entries.drop_first()[k] == entries[k + 1]);
        }
        lemma_counter_no_match(entries.drop_first(), labels);
    }
}

// ---------------------------------------------------------------------------
// The observability handle
// ---------------------------------------------------------------------------

/// The gateway's metrics: an explicitly constructed handle passed to the
/// components that observe something, in place of process-global
/// registries.  Counters are labeled and saturating; the two gauges
/// mirror the extraction pool.
pub struct Metrics {
    pub http_requests_total: LabelCounter,
    pub cache_hits_total: LabelCounter,
    pub cache_misses_total: LabelCounter,
    pub images_processed_total: LabelCounter,
    pub videos_processed_total: LabelCounter,
    pub processing_errors_total: LabelCounter,
    pub ffmpeg_extractions_total: LabelCounter,
    pub bytes_downloaded_total: LabelCounter,
    pub bytes_served_total: LabelCounter,
    pub ffmpeg_permits_available: u64,
    pub ffmpeg_waiters: u64,
}

impl Metrics {
    /// A fresh handle with every count at zero.
    pub fn new() -> (r: Self)
        ensures
            forall|l: Seq<Seq<char>>| counter_get(r.http_requests_total.entries@, l) == 0,
            forall|l: Seq<Seq<char>>| counter_get(r.cache_hits_total.entries@, l) == 0,
            forall|l: Seq<Seq<char>>| counter_get(r.cache_misses_total.entries@, l) == 0,
            forall|l: Seq<Seq<char>>| counter_get(r.images_processed_total.entries@, l) == 0,
            forall|l: Seq<Seq<char>>| counter_get(r.videos_processed_total.entries@, l) == 0,
            forall|l: Seq<Seq<char>>| counter_get(r.processing_errors_total.entries@, l) == 0,
            forall|l: Seq<Seq<char>>| counter_get(r.ffmpeg_extractions_total.entries@, l) == 0,
            forall|l: Seq<Seq<char>>| counter_get(r.bytes_downloaded_total.entries@, l) == 0,
            forall|l: Seq<Seq<char>>| counter_get(r.bytes_served_total.entries@, l) == 0,
            r.ffmpeg_permits_available == 0,
            r.ffmpeg_waiters == 0,
    {
        Metrics {
            http_requests_total: LabelCounter::new(),
            cache_hits_total: LabelCounter::new(),
            cache_misses_total: LabelCounter::new(),
            images_processed_total: LabelCounter::new(),
            videos_processed_total: LabelCounter::new(),
            processing_errors_total: LabelCounter::new(),
            ffmpeg_extractions_total: LabelCounter::new(),
            bytes_downloaded_total: LabelCounter::new(),
            bytes_served_total: LabelCounter::new(),
            ffmpeg_permits_available: 0,
            ffmpeg_waiters: 0,
        }
    }
}

/// Record one HTTP request, labeled by endpoint, method and status.
pub fn record_http_request(m: &mut Metrics, endpoint: &str, method: &str, status: u16)
    ensures
        spec_inc(
            old(m).http_requests_total,
            final(m).http_requests_total,
            seq![endpoint@, method@, dec_of(status as int)],
            1,
        ),
        *final(m) == (Metrics { http_requests_total: final(m).http_requests_total, ..*old(m) }),
{
    let mut labels: Vec<String> = Vec::new();
    labels.push(endpoint.to_owned());
    labels.push(method.to_owned());
    labels.push(u64_to_string(status as u64));
    proof {
        assert(labels.deep_view() =~= seq![endpoint@, method@, dec_of(status as int)]);
    }
    m.http_requests_total.inc_by(labels, 1);
}

/// Record a cache hit in the given cache tier.
pub fn record_cache_hit(m: &mut Metrics, cache_type: &str)
    ensures
        spec_inc(old(m).cache_hits_total, final(m).cache_hits_total, seq![cache_type@], 1),
        *final(m) == (Metrics { cache_hits_total: final(m).cache_hits_total, ..*old(m) }),
{
    let mut labels: Vec<String> = Vec::new();
    labels.push(cache_type.to_owned());
    proof {
        assert(labels.deep_view() =~= seq![cache_type@]);
    }
    m.cache_hits_total.inc_by(labels, 1);
}

/// Record a cache miss in the given cache tier.
pub fn record_cache_miss(m: &mut Metrics, cache_type: &str)
    ensures
        spec_inc(old(m).cache_misses_total, final(m).cache_misses_total, seq![cache_type@], 1),
        *final(m) == (Metrics { cache_misses_total: final(m).cache_misses_total, ..*old(m) }),
{
    let mut labels: Vec<String> = Vec::new();
    labels.push(cache_type.to_owned());
    proof {
        assert(labels.deep_view() =~= seq![cache_type@]);
    }
    m.cache_misses_total.inc_by(labels, 1);
}

/// Record one processed image by output format.
pub fn record_image_processed(m: &mut Metrics, output_format: &str)
    ensures
        spec_inc(
            old(m).images_processed_total,
            final(m).images_processed_total,
            seq![output_format@],
            1,
        ),
        *final(m) == (Metrics { images_processed_total: final(m).images_processed_total, ..*old(m) }),
{
    let mut labels: Vec<String> = Vec::new();
    labels.push(output_format.to_owned());
    proof {
        assert(labels.deep_view() =~= seq![output_format@]);
    }
    m.images_processed_total.inc_by(labels, 1);
}

/// Record one extracted video thumbnail by output format.
pub fn record_video_processed(m: &mut Metrics, output_format: &str)
    ensures
        spec_inc(
            old(m).videos_processed_total,
            final(m).videos_processed_total,
            seq![output_format@],
            1,
        ),
        *final(m) == (Metrics { videos_processed_total: final(m).videos_processed_total, ..*old(m) }),
{
    let mut labels: Vec<String> = Vec::new();
    labels.push(output_format.to_owned());
    proof {
        assert(labels.deep_view() =~= seq![output_format@]);
    }
    m.videos_processed_total.inc_by(labels, 1);
}

/// Record a processing failure by error class.
pub fn record_processing_error(m: &mut Metrics, error_type: &str)
    ensures
        spec_inc(
            old(m).processing_errors_total,
            final(m).processing_errors_total,
            seq![error_type@],
            1,
        ),
        *final(m) == (Metrics { processing_errors_total: final(m).processing_errors_total, ..*old(m) }),
{
    let mut labels: Vec<String> = Vec::new();
    labels.push(error_type.to_owned());
    proof {
        assert(labels.deep_view() =~= seq![error_type@]);
    }
    m.processing_errors_total.inc_by(labels, 1);
}

/// Record one external extraction attempt and how it ended.
pub fn record_ffmpeg_extraction(m: &mut Metrics, success: bool)
    ensures
        spec_inc(
            old(m).ffmpeg_extractions_total,
            final(m).ffmpeg_extractions_total,
            seq![if success {
                "success"@
            } else {
                "failure"@
            }],
            1,
        ),
        *final(m) == (Metrics { ffmpeg_extractions_total: final(m).ffmpeg_extractions_total, ..*old(m) }),
{
    let status: &str = if success {
        "success"
    } else {
        "failure"
    };
    let mut labels: Vec<String> = Vec::new();
    labels.push(status.to_owned());
    proof {
        assert(labels.deep_view() =~= seq![
            if success {
                "success"@
            } else {
                "failure"@
            },
        ]);
    }
    m.ffmpeg_extractions_total.inc_by(labels, 1);
}

/// Record bytes fetched from a source, by source kind.
pub fn record_bytes_downloaded(m: &mut Metrics, source_type: &str, bytes: usize)
    ensures
        spec_inc(
            old(m).bytes_downloaded_total,
            final(m).bytes_downloaded_total,
            seq![source_type@],
            bytes as int,
        ),
        *final(m) == (Metrics { bytes_downloaded_total: final(m).bytes_downloaded_total, ..*old(m) }),
{
    let mut labels: Vec<String> = Vec::new();
    labels.push(source_type.to_owned());
    proof {
        assert(labels.deep_view() =~= seq![source_type@]);
    }
    m.bytes_downloaded_total.inc_by(labels, bytes as u64);
}

/// Record bytes served to a client, by content type.
pub fn record_bytes_served(m: &mut Metrics, content_type: &str, bytes: usize)
    ensures
        spec_inc(
            old(m).bytes_served_total,
            final(m).bytes_served_total,
            seq![content_type@],
            bytes as int,
        ),
        *final(m) == (Metrics { bytes_served_total: final(m).bytes_served_total, ..*old(m) }),
{
    let mut labels: Vec<String> = Vec::new();
    labels.push(content_type.to_owned());
    proof {
        assert(labels.deep_view() =~= seq![content_type@]);
    }
    m.bytes_served_total.inc_by(labels, bytes as u64);
}

/// Mirror the extraction pool's free permits and waiting tasks.
pub fn update_ffmpeg_semaphore_metrics(m: &mut Metrics, permits_available: usize, waiters: usize)
    ensures
        final(m).ffmpeg_permits_available == permits_available as u64,
        final(m).ffmpeg_waiters == waiters as u64,
        *final(m) == (Metrics {
            ffmpeg_permits_available: permits_available as u64,
            ffmpeg_waiters: waiters as u64,
            ..*old(m)
        }),
{
    m.ffmpeg_permits_available = permits_available as u64;
    m.ffmpeg_waiters = waiters as u64;
}

} // verus!
