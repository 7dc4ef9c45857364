//! The replies of AniSkip: the opening and ending segments of an episode.
//! Times are seconds held as the bit patterns of `f64` values; comparing
//! them is left to the caller.
use serde_json::Value;
use vstd::prelude::*;

verus! {

/// One result of a reply: its `skipType`, and its `interval` with the
/// `startTime` and `endTime` in it (each absent when missing or of another
/// JSON type).
pub struct SkipItem {
    pub skip_type: Option<String>,
    pub interval: Option<(Option<u64>, Option<u64>)>,
}

/// The mathematical value of a `SkipItem`.
pub struct SkipItemView {
    pub skip_type: Option<Seq<char>>,
    pub interval: Option<(Option<u64>, Option<u64>)>,
}

impl View for SkipItem {
    type V = SkipItemView;

    open spec fn view(&self) -> SkipItemView {
        SkipItemView { skip_type: crate::text::opt_view(self.skip_type), interval: self.interval }
    }
}

/// What a reply says: its `found` flag and its `results` array.
pub struct SkipReply {
    pub found: Option<bool>,
    pub results: Option<Vec<SkipItem>>,
}

/// The mathematical value of a `SkipReply`.
pub struct SkipReplyView {
    pub found: Option<bool>,
    pub results: Option<Seq<SkipItemView>>,
}

/// The views of the results of a reply.
pub open spec fn item_views(v: Seq<SkipItem>) -> Seq<SkipItemView> {
    v.map_values(|i: SkipItem| i@)
}

impl View for SkipReply {
    type V = SkipReplyView;

    open spec fn view(&self) -> SkipReplyView {
        SkipReplyView {
            found: self.found,
            results: match self.results {
                Some(v) => Some(item_views(v@)),
                None => None,
            },
        }
    }
}

/// What `serde_json` reads from the text of an AniSkip reply; `None` when
/// the text is not JSON.
pub uninterp spec fn skip_reply_of(text: Seq<char>) -> Option<SkipReplyView>;

/// Parses the text of an AniSkip reply with `serde_json::from_str` and reads
/// its boolean `found`, and for each entry of its `results` array the string
/// `skipType` and the numbers `startTime` and `endTime` of its `interval`
/// (as `f64` bit patterns). The result is named `skip_reply_of`.
#[verifier::external_body]
pub fn read_skip_reply(text: &str) -> (r: Option<SkipReply>)
    ensures
        match r {
            Some(v) => skip_reply_of(text@) == Some(v@),
            None => skip_reply_of(text@) is None,
        },
{
    let v: Value = serde_json::from_str(text).ok()?;
    let bits = |i: &Value, k: &str| i.get(k).and_then(Value::as_f64).map(|x| x.to_bits());
    let item = |it: &Value| SkipItem {
        skip_type: it.get("skipType").and_then(Value::as_str).map(String::from),
        interval: it.get("interval").map(|iv| (bits(iv, "startTime"), bits(iv, "endTime"))),
    };
    let results = v.get("results").and_then(Value::as_array).map(|a| a.iter().map(item).collect());
    Some(SkipReply { found: v.get("found").and_then(Value::as_bool), results })
}

/// One segment to skip: its type (`op`, `ed`, ...) and its start and end,
/// as `f64` bit patterns.
pub struct SkipSegment {
    pub skip_type: String,
    pub start_bits: u64,
    pub end_bits: u64,
}

/// The mathematical value of a `SkipSegment`.
pub struct SkipSegmentView {
    pub skip_type: Seq<char>,
    pub start_bits: u64,
    pub end_bits: u64,
}

impl View for SkipSegment {
    type V = SkipSegmentView;

    open spec fn view(&self) -> SkipSegmentView {
        SkipSegmentView { skip_type: self.skip_type@, start_bits: self.start_bits, end_bits: self.end_bits }
    }
}

/// The views of segments.
pub open spec fn seg_views(v: Seq<SkipSegment>) -> Seq<SkipSegmentView> {
    v.map_values(|s: SkipSegment| s@)
}

/// The bits of a time, those of `0.0` when it is absent.
pub open spec fn time_or_zero(t: Option<u64>) -> u64 {
    match t {
        Some(b) => b,
        None => 0,
    }
}

/// The segments of the results, in order: each result with an interval
/// gives its type (empty when absent) and its two times (`0.0` when
/// absent).
pub open spec fn item_segments(items: Seq<SkipItemView>) -> Seq<SkipSegmentView>
    decreases items.len(),
{
    if items.len() == 0 {
        seq![]
    } else {
        let r = item_segments(items.drop_last());
        let it = items.last();
        match it.interval {
            Some((st, en)) => r.push(
                SkipSegmentView {
                    skip_type: match it.skip_type {
                        Some(t) => t,
                        None => Seq::empty(),
                    },
                    start_bits: time_or_zero(st),
                    end_bits: time_or_zero(en),
                },
            ),
            None => r,
        }
    }
}

/// A result has an interval.
pub open spec fn has_interval() -> spec_fn(SkipItemView) -> bool {
    |it: SkipItemView| it.interval is Some
}

/// Every result with an interval gives one segment, whatever its type, in
/// order: there are as many segments as such results, and the `k`-th
/// segment carries the type of the `k`-th of them (empty when absent) and
/// its start and end (zero when absent).
pub proof fn lemma_one_segment_per_interval(items: Seq<SkipItemView>)
    ensures
        item_segments(items).len() == items.filter(has_interval()).len(),
        forall|k: int|
            0 <= k < item_segments(items).len() ==> {
                let it = #[trigger] items.filter(has_interval())[k];
                &&& item_segments(items)[k].skip_type == match it.skip_type {
                    Some(t) => t,
                    None => Seq::<char>::empty(),
                }
                &&& item_segments(items)[k].start_bits == time_or_zero((it.interval->0).0)
                &&& item_segments(items)[k].end_bits == time_or_zero((it.interval->0).1)
            },
    decreases items.len(),
{
    if items.len() > 0 {
        let p = items.drop_last();
        lemma_one_segment_per_interval(p);
        p.lemma_filter_push(items.last(), has_interval());
        assert(p.push(items.last()) =~= items);
    } else {
        assert(items.filter(has_interval()) =~= items) by {
            reveal(Seq::filter);
        }
    }
}

/// The segments of a reply: none unless it is JSON with `found` true; then
/// those of its results (none without a `results` array).
pub open spec fn segments_of(reply: Option<SkipReplyView>) -> Seq<SkipSegmentView> {
    match reply {
        Some(r) => if r.found == Some(true) {
            match r.results {
                Some(items) => item_segments(items),
                None => seq![],
            }
        } else {
            seq![]
        },
        None => seq![],
    }
}

/// The segments of the results of a reply.
fn segments_of_items(items: &Vec<SkipItem>) -> (r: Vec<SkipSegment>)
    ensures
        seg_views(r@) == item_segments(item_views(items@)),
{
    let mut out: Vec<SkipSegment> = Vec::new();
    let mut i: usize = 0;
    while i < items.len()
        invariant
            i <= items.len(),
            seg_views(out@) == item_segments(item_views(items@).take(i as int)),
        decreases items.len() - i,
    {
        let ghost now = item_views(items@).take(i + 1);
        assert(now.drop_last() =~= item_views(items@).take(i as int));
        assert(now.last() == items@[i as int]@);
        let ghost before = seg_views(out@);
        match &items[i].interval {
            Some((st, en)) => {
                let skip_type = match &items[i].skip_type {
                    Some(t) => t.clone(),
                    None => String::new(),
                };
                let start_bits = match st {
                    Some(b) => *b,
                    None => 0,
                };
                let end_bits = match en {
                    Some(b) => *b,
                    None => 0,
                };
                out.push(SkipSegment { skip_type, start_bits, end_bits });
                assert(seg_views(out@) =~= item_segments(now));
            },
            None => {},
        }
        i = i + 1;
    }
    assert(item_views(items@).take(items.len() as int) =~= item_views(items@));
    out
}

/// The opening and ending segments in the text of an AniSkip reply.
pub fn skip_segments(text: &str) -> (r: Vec<SkipSegment>)
    ensures
        seg_views(r@) == segments_of(skip_reply_of(text@)),
{
    match read_skip_reply(text) {
        Some(reply) => {
            if reply.found == Some(true) {
                match &reply.results {
                    Some(items) => {
                        return segments_of_items(items);
                    },
                    None => {},
                }
            }
        },
        None => {},
    }
    let v: Vec<SkipSegment> = Vec::new();
    assert(seg_views(v@) =~= Seq::<SkipSegmentView>::empty());
    v
}

} // verus!
