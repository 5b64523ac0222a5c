//! Audio mixer adapter: parses the mixer tool's human-readable
//! `list sink-inputs` dump into structured per-stream volume records,
//! answers fuzzy name lookups, and clamps volume-write targets.  Running
//! the tool itself is the caller's concern; this module works on the
//! captured output bytes.

use vstd::prelude::*;
use vstd::utf8::encode_utf8;

use crate::text::{
    find_first_byte, find_first_byte_exec, find_last_byte, find_last_byte_exec, has_prefix,
    has_prefix_exec, has_subseq_ci, has_subseq_ci_exec, lemma_find_first_byte, parse_u32_exec,
    parse_u32_spec, sub_bytes, trim_bytes, trim_spec,
};

verus! {

/// Spec-level image of an [`AudioSinkInput`].
pub struct AudioSinkInputView {
    pub index: u32,
    pub application_name: Seq<u8>,
    pub volume_percent: u32,
}

/// One mixer-side stream record.  The name is kept as the raw bytes the
/// tool printed; volume is an integer percentage (`100` is full volume).
pub struct AudioSinkInput {
    pub index: u32,
    pub application_name: Vec<u8>,
    pub volume_percent: u32,
}

impl View for AudioSinkInput {
    type V = AudioSinkInputView;

    open spec fn view(&self) -> AudioSinkInputView {
        AudioSinkInputView {
            index: self.index,
            application_name: self.application_name@,
            volume_percent: self.volume_percent,
        }
    }
}

/// Spec-level image of a record list.
pub open spec fn sink_views(s: Seq<AudioSinkInput>) -> Seq<AudioSinkInputView> {
    s.map_values(|r: AudioSinkInput| r@)
}

/// Volume assumed for a record whose listing shows no volume field.
pub const DEFAULT_SINK_VOLUME_PERCENT: u32 = 100;

/// The bytes of `"Sink Input #"`, the record-start marker.
pub open spec fn marker_record() -> Seq<u8> {
    seq![83u8, 105u8, 110u8, 107u8, 32u8, 73u8, 110u8, 112u8, 117u8, 116u8, 32u8, 35u8]
}

/// The bytes of `"application.name = "`, the name-field marker.
pub open spec fn marker_name_key() -> Seq<u8> {
    seq![
        97u8, 112u8, 112u8, 108u8, 105u8, 99u8, 97u8, 116u8, 105u8, 111u8, 110u8, 46u8, 110u8,
        97u8, 109u8, 101u8, 32u8, 61u8, 32u8,
    ]
}

/// The name-field marker followed by the opening quote.
pub open spec fn marker_name_prefix() -> Seq<u8> {
    marker_name_key().push(34u8)
}

/// The bytes of `"Volume:"`, the volume-field marker.
pub open spec fn marker_volume() -> Seq<u8> {
    seq![86u8, 111u8, 108u8, 117u8, 109u8, 101u8, 58u8]
}

fn marker_record_exec() -> (r: Vec<u8>)
    ensures
        r@ =~= marker_record(),
{
    let mut v: Vec<u8> = Vec::new();
    v.push(83);
    v.push(105);
    v.push(110);
    v.push(107);
    v.push(32);
    v.push(73);
    v.push(110);
    v.push(112);
    v.push(117);
    v.push(116);
    v.push(32);
    v.push(35);
    v
}

fn marker_name_key_exec() -> (r: Vec<u8>)
    ensures
        r@ =~= marker_name_key(),
{
    let mut v: Vec<u8> = Vec::new();
    v.push(97);
    v.push(112);
    v.push(112);
    v.push(108);
    v.push(105);
    v.push(99);
    v.push(97);
    v.push(116);
    v.push(105);
    v.push(111);
    v.push(110);
    v.push(46);
    v.push(110);
    v.push(97);
    v.push(109);
    v.push(101);
    v.push(32);
    v.push(61);
    v.push(32);
    v
}

fn marker_volume_exec() -> (r: Vec<u8>)
    ensures
        r@ =~= marker_volume(),
{
    let mut v: Vec<u8> = Vec::new();
    v.push(86);
    v.push(111);
    v.push(108);
    v.push(117);
    v.push(109);
    v.push(101);
    v.push(58);
    v
}

/// Split a byte dump into lines at line-feed bytes.  A trailing line
/// feed ends the last line rather than opening an empty one.
pub open spec fn lines_of(s: Seq<u8>) -> Seq<Seq<u8>>
    decreases s.len(),
{
    if s.len() == 0 {
        Seq::empty()
    } else {
        let k = find_first_byte(s, 10);
        if 0 <= k < s.len() {
            seq![s.take(k)] + lines_of(s.skip(k + 1))
        } else {
            seq![s]
        }
    }
}

/// Spec-level image of an owned line list.
pub open spec fn lines_view(v: Seq<Vec<u8>>) -> Seq<Seq<u8>> {
    v.map_values(|l: Vec<u8>| l@)
}

/// Split the dump into owned lines.
pub fn split_lines(s: &[u8]) -> (r: Vec<Vec<u8>>)
    ensures
        lines_view(r@) == lines_of(s@),
{
    let len = s.len();
    let mut out: Vec<Vec<u8>> = Vec::new();
    let mut i: usize = 0;
    proof {
        assert(lines_view(out@) + lines_of(s@.skip(0)) =~= lines_of(s@)) by {
            assert(s@.skip(0) =~= s@);
            assert(lines_view(out@) =~= Seq::<Seq<u8>>::empty());
        }
    }
    while i < len
        invariant
            len == s@.len(),
            i <= len,
            lines_view(out@) + lines_of(s@.skip(i as int)) =~= lines_of(s@),
        decreases len - i,
    {
        let mut j: usize = i;
        while j < len && s[j] != 10
            invariant
                i <= j <= len,
                len == s@.len(),
                forall|t: int| i <= t < j ==> s@[t] != 10,
            decreases len - j,
        {
            j = j + 1;
        }
        let ghost tail = s@.skip(i as int);
        proof {
            lemma_find_first_byte(tail, 10);
            assert(forall|t: int| 0 <= t < j - i ==> tail[t] == s@[i + t]);
            if j < len {
                assert(tail[j - i] == 10);
                assert(find_first_byte(tail, 10) == j - i);
            } else {
                assert(forall|t: int| 0 <= t < tail.len() ==> tail[t] != 10);
                assert(find_first_byte(tail, 10) == tail.len());
            }
        }
        let line = sub_bytes(s, i, j);
        let ghost out0 = lines_view(out@);
        out.push(line);
        proof {
            assert(tail.take(j - i) =~= s@.subrange(i as int, j as int));
            assert(lines_view(out@) =~= out0.push(tail.take(j - i)));
        }
        if j < len {
            proof {
                assert(lines_of(tail) =~= seq![tail.take(j - i)] + lines_of(tail.skip(j - i + 1)));
                assert(tail.skip(j - i + 1) =~= s@.skip(j + 1));
                assert(lines_view(out@) + lines_of(s@.skip(j + 1)) =~= lines_of(s@));
            }
            i = j + 1;
        } else {
            proof {
                assert(tail.len() > 0);
                assert(lines_of(tail) =~= seq![tail]);
                assert(tail.take(j - i) =~= tail);
                assert(s@.skip(len as int).len() == 0);
                assert(lines_of(s@.skip(len as int)) =~= Seq::<Seq<u8>>::empty());
                assert(lines_view(out@) + lines_of(s@.skip(len as int)) =~= lines_of(s@));
            }
            i = len;
        }
    }
    proof {
        assert(s@.skip(len as int).len() == 0);
        assert(lines_of(s@.skip(len as int)) =~= Seq::<Seq<u8>>::empty());
        assert(lines_view(out@) =~= lines_of(s@));
    }
    out
}

/// Parser state carried between lines: the index of the record being
/// read (absent before the first record marker, or after an unreadable
/// one), and the fields collected so far.
pub struct ParseCursor {
    pub index: Option<u32>,
    pub name: Seq<u8>,
    pub volume_percent: u32,
}

pub open spec fn init_cursor() -> ParseCursor {
    ParseCursor { index: None, name: Seq::empty(), volume_percent: DEFAULT_SINK_VOLUME_PERCENT }
}

/// First position holding this stream index, or `-1`.
pub open spec fn find_index(acc: Seq<AudioSinkInputView>, idx: u32) -> int
    decreases acc.len(),
{
    if acc.len() == 0 {
        -1
    } else if acc[0].index == idx {
        0
    } else {
        let r = find_index(acc.drop_first(), idx);
        if r == -1 {
            -1
        } else {
            1 + r
        }
    }
}

pub proof fn lemma_find_index(acc: Seq<AudioSinkInputView>, idx: u32)
    ensures
        find_index(acc, idx) == -1 || 0 <= find_index(acc, idx) < acc.len(),
        find_index(acc, idx) >= 0 ==> acc[find_index(acc, idx)].index == idx,
        forall|j: int|
            0 <= j < acc.len() && (j < find_index(acc, idx) || find_index(acc, idx) == -1)
                ==> acc[j].index != idx,
    decreases acc.len(),
{
    if acc.len() > 0 && acc[0].index != idx {
        lemma_find_index(acc.drop_first(), idx);
        assert(forall|j: int| 1 <= j < acc.len() ==> acc[j] == acc.drop_first()[j - 1]);
    }
}

/// Store a finished record: replace the record with the same stream
/// index when one exists, append otherwise.
pub open spec fn upsert(acc: Seq<AudioSinkInputView>, r: AudioSinkInputView) -> Seq<
    AudioSinkInputView,
> {
    let i = find_index(acc, r.index);
    if i >= 0 {
        acc.update(i, r)
    } else {
        acc.push(r)
    }
}

/// Fold the pending record, if any, into the accumulator.
pub open spec fn flush_cursor(acc: Seq<AudioSinkInputView>, cur: ParseCursor) -> Seq<
    AudioSinkInputView,
> {
    match cur.index {
        Some(i) => upsert(
            acc,
            AudioSinkInputView {
                index: i,
                application_name: cur.name,
                volume_percent: cur.volume_percent,
            },
        ),
        None => acc,
    }
}

/// The application name carried by a (trimmed) name-field line: the
/// bytes between the quotes, or empty when the quoting is not intact.
pub open spec fn name_of_line(line: Seq<u8>) -> Seq<u8> {
    let p = marker_name_prefix();
    if has_prefix(line, p) && line.len() > p.len() && line.last() == 34 {
        line.subrange(p.len() as int, line.len() - 1)
    } else {
        Seq::empty()
    }
}

/// The volume percentage read from a (trimmed) volume line: the number
/// between the last space and the first percent sign.  Any field that
/// does not parse leaves the previous value.
pub open spec fn volume_of_line(line: Seq<u8>, prev: u32) -> u32 {
    let p = find_first_byte(line, 37);
    if p >= line.len() {
        prev
    } else {
        let before = line.take(p);
        let sp = find_last_byte(before, 32);
        if sp == -1 {
            prev
        } else {
            match parse_u32_spec(trim_spec(before.skip(sp + 1))) {
                Some(v) => v,
                None => prev,
            }
        }
    }
}

/// One step of the line-oriented state machine, on a raw line.
pub open spec fn step_line(acc: Seq<AudioSinkInputView>, cur: ParseCursor, raw: Seq<u8>) -> (Seq<
    AudioSinkInputView,
>, ParseCursor) {
    let line = trim_spec(raw);
    if has_prefix(line, marker_record()) {
        let acc1 = flush_cursor(acc, cur);
        let rest = line.skip(marker_record().len() as int);
        (
            acc1,
            ParseCursor {
                index: parse_u32_spec(rest),
                name: Seq::empty(),
                volume_percent: DEFAULT_SINK_VOLUME_PERCENT,
            },
        )
    } else if has_prefix(line, marker_name_key()) {
        (
            acc,
            ParseCursor {
                index: cur.index,
                name: name_of_line(line),
                volume_percent: cur.volume_percent,
            },
        )
    } else if has_prefix(line, marker_volume()) {
        (
            acc,
            ParseCursor {
                index: cur.index,
                name: cur.name,
                volume_percent: volume_of_line(line, cur.volume_percent),
            },
        )
    } else {
        (acc, cur)
    }
}

/// The state machine run over a line list.
pub open spec fn run_lines(lines: Seq<Seq<u8>>) -> (Seq<AudioSinkInputView>, ParseCursor)
    decreases lines.len(),
{
    if lines.len() == 0 {
        (Seq::empty(), init_cursor())
    } else {
        let prev = run_lines(lines.drop_last());
        step_line(prev.0, prev.1, lines.last())
    }
}

/// What a whole listing dump parses to.
pub open spec fn parse_listing_spec(s: Seq<u8>) -> Seq<AudioSinkInputView> {
    let r = run_lines(lines_of(s));
    flush_cursor(r.0, r.1)
}

/// Store a finished record into the list, replacing an entry with the
/// same stream index when one exists.
fn push_record(acc: &mut Vec<AudioSinkInput>, index: u32, name: Vec<u8>, vol: u32)
    ensures
        sink_views(final(acc)@) == upsert(
            sink_views(old(acc)@),
            AudioSinkInputView { index, application_name: name@, volume_percent: vol },
        ),
{
    let ghost acc0 = sink_views(acc@);
    proof {
        lemma_find_index(acc0, index);
    }
    let n = acc.len();
    let mut i: usize = 0;
    while i < n && acc[i].index != index
        invariant
            n == acc@.len(),
            acc0 == sink_views(acc@),
            i <= n,
            forall|j: int| 0 <= j < i ==> acc0[j].index != index,
        decreases n - i,
    {
        proof {
            assert(acc0[i as int].index == acc@[i as int].index);
        }
        i = i + 1;
    }
    let rec = AudioSinkInput { index, application_name: name, volume_percent: vol };
    if i < n {
        proof {
            assert(acc0[i as int].index == index);
            assert(find_index(acc0, index) == i as int);
        }
        acc.set(i, rec);
        proof {
            assert(sink_views(acc@) =~= acc0.update(i as int, rec@));
        }
    } else {
        proof {
            assert(find_index(acc0, index) == -1);
        }
        acc.push(rec);
        proof {
            assert(sink_views(acc@) =~= acc0.push(rec@));
        }
    }
}

/// Parse a whole listing dump into stream records.
pub fn parse_listing(s: &[u8]) -> (r: Vec<AudioSinkInput>)
    ensures
        sink_views(r@) == parse_listing_spec(s@),
{
    let lines = split_lines(s);
    let ghost lv = lines_view(lines@);
    let marker_rec = marker_record_exec();
    let marker_name = marker_name_key_exec();
    let marker_vol = marker_volume_exec();
    let mut acc: Vec<AudioSinkInput> = Vec::new();
    let mut cur_index: Option<u32> = None;
    let mut cur_name: Vec<u8> = Vec::new();
    let mut cur_vol: u32 = DEFAULT_SINK_VOLUME_PERCENT;
    let n = lines.len();
    let mut k: usize = 0;
    proof {
        assert(lv.take(0) =~= Seq::<Seq<u8>>::empty());
        assert(sink_views(acc@) =~= Seq::<AudioSinkInputView>::empty());
    }
    while k < n
        invariant
            n == lines@.len(),
            lv == lines_view(lines@),
            k <= n,
            marker_rec@ == marker_record(),
            marker_name@ == marker_name_key(),
            marker_vol@ == marker_volume(),
            run_lines(lv.take(k as int)) == (
                sink_views(acc@),
                ParseCursor { index: cur_index, name: cur_name@, volume_percent: cur_vol },
            ),
        decreases n - k,
    {
        proof {
            assert(lv.take(k + 1).drop_last() =~= lv.take(k as int));
            assert(lv.take(k + 1).last() == lv[k as int]);
            assert(lv[k as int] == lines@[k as int]@);
        }
        let ghost pre = (
            sink_views(acc@),
            ParseCursor { index: cur_index, name: cur_name@, volume_percent: cur_vol },
        );
        let line = trim_bytes(lines[k].as_slice());
        let line_len = line.len();
        if has_prefix_exec(line.as_slice(), marker_rec.as_slice()) {
            let old_name = cur_name;
            match cur_index {
                Some(idx) => {
                    push_record(&mut acc, idx, old_name, cur_vol);
                },
                None => {},
            }
            let rest = sub_bytes(line.as_slice(), 12, line_len);
            proof {
                assert(rest@ =~= trim_spec(lv[k as int]).skip(12));
            }
            cur_index = parse_u32_exec(rest.as_slice());
            cur_name = Vec::new();
            cur_vol = DEFAULT_SINK_VOLUME_PERCENT;
            proof {
                assert(sink_views(acc@) == flush_cursor(pre.0, pre.1));
                assert(cur_name@ =~= Seq::<u8>::empty());
            }
        } else if has_prefix_exec(line.as_slice(), marker_name.as_slice()) {
            let mut is_quoted = false;
            if line_len > 20 {
                let last = line[line_len - 1];
                if last == 34 && line[19] == 34 {
                    is_quoted = true;
                }
            }
            proof {
                assert(marker_name_prefix().len() == 20);
                assert(marker_name_prefix()[19] == 34);
                assert(forall|j: int|
                    0 <= j < 19 ==> marker_name_prefix()[j] == marker_name_key()[j]);
            }
            if is_quoted {
                proof {
                    let lt = trim_spec(lv[k as int]);
                    assert(has_prefix(lt, marker_name_prefix()));
                    assert(name_of_line(lt) == lt.subrange(20, lt.len() - 1));
                }
                cur_name = sub_bytes(line.as_slice(), 20, line_len - 1);
            } else {
                proof {
                    let lt = trim_spec(lv[k as int]);
                    if has_prefix(lt, marker_name_prefix()) && lt.len() > 20 && lt.last() == 34 {
                        assert(lt[19] == marker_name_prefix()[19]);
                        assert(false);
                    }
                    assert(name_of_line(lt) == Seq::<u8>::empty());
                }
                cur_name = Vec::new();
                proof {
                    assert(cur_name@ =~= Seq::<u8>::empty());
                }
            }
        } else if has_prefix_exec(line.as_slice(), marker_vol.as_slice()) {
            let p = find_first_byte_exec(line.as_slice(), 37);
            if p < line_len {
                let before = sub_bytes(line.as_slice(), 0, p);
                proof {
                    assert(before@ =~= trim_spec(lv[k as int]).take(p as int));
                }
                match find_last_byte_exec(before.as_slice(), 32) {
                    Some(sp) => {
                        proof {
                            crate::text::lemma_find_last_byte(before@, 32);
                        }
                        let numstr = sub_bytes(before.as_slice(), sp + 1, before.len());
                        proof {
                            assert(numstr@ =~= before@.skip(sp + 1));
                        }
                        let trimmed_num = trim_bytes(numstr.as_slice());
                        match parse_u32_exec(trimmed_num.as_slice()) {
                            Some(v) => {
                                cur_vol = v;
                            },
                            None => {},
                        }
                    },
                    None => {},
                }
            }
        }
        proof {
            assert((
                sink_views(acc@),
                ParseCursor { index: cur_index, name: cur_name@, volume_percent: cur_vol },
            ) == step_line(pre.0, pre.1, lv[k as int]));
            assert(run_lines(lv.take(k + 1)) == (
                sink_views(acc@),
                ParseCursor { index: cur_index, name: cur_name@, volume_percent: cur_vol },
            ));
        }
        k = k + 1;
    }
    proof {
        assert(lv.take(n as int) =~= lv);
    }
    match cur_index {
        Some(idx) => {
            push_record(&mut acc, idx, cur_name, cur_vol);
        },
        None => {},
    }
    proof {
        assert(sink_views(acc@) == parse_listing_spec(s@));
    }
    acc
}

/// Fuzzy stream match: either name contains the other,
/// case-insensitively.
pub open spec fn sink_matches(r: AudioSinkInputView, pattern: Seq<u8>) -> bool {
    has_subseq_ci(r.application_name, pattern) || has_subseq_ci(pattern, r.application_name)
}

/// First position whose record matches the pattern, or `-1`.
pub open spec fn find_match(s: Seq<AudioSinkInputView>, pattern: Seq<u8>) -> int
    decreases s.len(),
{
    if s.len() == 0 {
        -1
    } else if sink_matches(s[0], pattern) {
        0
    } else {
        let r = find_match(s.drop_first(), pattern);
        if r == -1 {
            -1
        } else {
            1 + r
        }
    }
}

pub proof fn lemma_find_match(s: Seq<AudioSinkInputView>, pattern: Seq<u8>)
    ensures
        find_match(s, pattern) == -1 || 0 <= find_match(s, pattern) < s.len(),
        find_match(s, pattern) >= 0 ==> sink_matches(s[find_match(s, pattern)], pattern),
        forall|j: int|
            0 <= j < s.len() && (j < find_match(s, pattern) || find_match(s, pattern) == -1)
                ==> !sink_matches(s[j], pattern),
    decreases s.len(),
{
    if s.len() > 0 && !sink_matches(s[0], pattern) {
        lemma_find_match(s.drop_first(), pattern);
        assert(forall|j: int| 1 <= j < s.len() ==> s[j] == s.drop_first()[j - 1]);
    }
}

/// Ceiling on a mixer volume write, in percent.
pub const MAX_SINK_VOLUME_PERCENT: u32 = 150;

/// A write target clamped to the allowed range.
pub open spec fn clamp_percent(t: u32) -> u32 {
    if t > MAX_SINK_VOLUME_PERCENT {
        MAX_SINK_VOLUME_PERCENT
    } else {
        t
    }
}

/// Clamping saturates: any target above the ceiling writes the same
/// volume as the ceiling itself, so an overshooting request behaves
/// exactly like a request for the maximum.
pub proof fn lemma_clamp_saturates(v: u32)
    requires
        v > MAX_SINK_VOLUME_PERCENT,
    ensures
        clamp_percent(v) == clamp_percent(MAX_SINK_VOLUME_PERCENT),
{
}

/// The volume-set command the mixer tool is to run: stream index and
/// clamped integer percentage.
pub struct VolumeWrite {
    pub index: u32,
    pub percent: u32,
}

/// The mixer adapter: a snapshot of the tool's stream listing, rebuilt
/// wholesale on every refresh.
pub struct AudioController {
    sink_inputs: Vec<AudioSinkInput>,
}

impl View for AudioController {
    type V = Seq<AudioSinkInputView>;

    closed spec fn view(&self) -> Seq<AudioSinkInputView> {
        sink_views(self.sink_inputs@)
    }
}

impl AudioController {
    /// A fresh adapter with no known streams.
    pub fn new() -> (r: Self)
        ensures
            r@ == Seq::<AudioSinkInputView>::empty(),
    {
        let r = AudioController { sink_inputs: Vec::new() };
        proof {
            assert(r@ =~= Seq::<AudioSinkInputView>::empty());
        }
        r
    }

    /// Rebuild the stream records from a captured listing dump.  The
    /// old records are discarded whole; a failed capture must simply
    /// not be handed in.
    pub fn refresh_sink_inputs(&mut self, listing: &[u8])
        ensures
            final(self)@ == parse_listing_spec(listing@),
    {
        self.sink_inputs = parse_listing(listing);
    }

    /// The current stream records, in listing order.
    pub fn sink_inputs(&self) -> (r: &Vec<AudioSinkInput>)
        ensures
            sink_views(r@) == self@,
    {
        &self.sink_inputs
    }

    /// The first stream whose name fuzzily matches the pattern.
    pub fn find_sink_input_by_name(&self, app_name_pattern: &str) -> (r: Option<&AudioSinkInput>)
        ensures
            ({
                let pat = encode_utf8(app_name_pattern@);
                match r {
                    Some(rec) => find_match(self@, pat) >= 0 && rec@ == self@[find_match(
                        self@,
                        pat,
                    )],
                    None => find_match(self@, pat) == -1,
                }
            }),
    {
        let ghost pat = encode_utf8(app_name_pattern@);
        proof {
            lemma_find_match(self@, pat);
        }
        let pattern = app_name_pattern.as_bytes();
        let n = self.sink_inputs.len();
        let mut i: usize = 0;
        while i < n
            invariant
                n == self.sink_inputs@.len(),
                pat == encode_utf8(app_name_pattern@),
                pattern@ == pat,
                i <= n,
                self@ == sink_views(self.sink_inputs@),
                forall|j: int| 0 <= j < i ==> !sink_matches(self@[j], pat),
                find_match(self@, pat) == -1 || 0 <= find_match(self@, pat) < self@.len(),
                find_match(self@, pat) >= 0 ==> sink_matches(self@[find_match(self@, pat)], pat),
                forall|j: int|
                    0 <= j < self@.len() && (j < find_match(self@, pat) || find_match(self@, pat)
                        == -1) ==> !sink_matches(self@[j], pat),
            decreases n - i,
        {
            let rec = &self.sink_inputs[i];
            let fwd = has_subseq_ci_exec(rec.application_name.as_slice(), pattern);
            let bwd = has_subseq_ci_exec(pattern, rec.application_name.as_slice());
            if fwd || bwd {
                proof {
                    assert(sink_matches(self@[i as int], pat));
                    assert(find_match(self@, pat) == i as int);
                }
                return Some(&self.sink_inputs[i]);
            }
            proof {
                assert(!sink_matches(self@[i as int], pat));
            }
            i = i + 1;
        }
        None
    }

    /// The volume-set command for one stream: the target is clamped to
    /// the allowed range and rounded to an integer percentage.  Issuing
    /// the command is the caller's concern.
    pub fn set_sink_input_volume(&self, index: u32, target_percent: u32) -> (r: VolumeWrite)
        ensures
            r.index == index,
            r.percent == clamp_percent(target_percent),
    {
        let percent = if target_percent > MAX_SINK_VOLUME_PERCENT {
            MAX_SINK_VOLUME_PERCENT
        } else {
            target_percent
        };
        VolumeWrite { index, percent }
    }
}

} // verus!
