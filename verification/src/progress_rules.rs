//! What the three lines of the display show, and how the state behind them changes.
use crate::double::{decimal_digits, of_int, product, quotient, seconds};
use crate::figures::{bytes, grouped, per_second, short};
use crate::numeral_rules::{law_one_place_reads_back, value};
use crate::progress::{
    bar_cells, bar_setup, breakdown, can_cut, draws, law_bar_cells, law_finished_phase_counts_in_full, longest,
    phase_long, phase_short, phase_weight, seconds_text, shown_path, spaces, summary_text, walking_draws, weight_before,
    Draw, DrawView, IndexProgress, PhaseStyle, PhaseTime, ProgressView,
};
use crate::rounding::{
    law_product_monotone, law_quotient_monotone, law_round_monotone, law_seconds_monotone, law_seconds_positive,
};
use crate::text::digits;
use vstd::arithmetic::power2::lemma2_to64_rest;
use vstd::prelude::*;
use vstd::utf8::{
    decode_utf8, decode_utf8_encode_utf8, decode_utf8_split, encode_utf8, encode_utf8_decode_utf8,
    encode_utf8_valid_utf8, valid_utf8_split,
};

verus! {

/// The view of a display holds each of its fields.
pub proof fn law_display_view(p: IndexProgress)
    ensures
        p@.phase_idx == p.phase_idx,
        p@.base == p.base,
        p@.weight == p.weight,
        p@.phase_len == p.phase_len,
        p@.phase_pos == p.phase_pos,
        p@.bar_len == p.bar_len,
        p@.phase_times == p.phase_times@,
        p@.stats == p.stats,
{
}

/// The view of bar operations holds each of them, in its order.
pub proof fn law_draw_view(v: Seq<Draw>, i: int)
    requires
        0 <= i < v.len(),
    ensures
        draws(v).len() == v.len(),
        match v[i] {
            Draw::OverallMessage(s) => draws(v)[i] == DrawView::OverallMessage(s@),
            Draw::OverallPosition(n) => draws(v)[i] == DrawView::OverallPosition(n),
            Draw::OverallDone(s) => draws(v)[i] == DrawView::OverallDone(s@),
            Draw::PhaseStyle(s) => draws(v)[i] == DrawView::PhaseStyle(s),
            Draw::PhaseLength(n) => draws(v)[i] == DrawView::PhaseLength(n),
            Draw::PhasePosition(n) => draws(v)[i] == DrawView::PhasePosition(n),
            Draw::PhaseMessage(s) => draws(v)[i] == DrawView::PhaseMessage(s@),
            Draw::PhaseDone => draws(v)[i] == DrawView::PhaseDone,
            Draw::FileMessage(s) => draws(v)[i] == DrawView::FileMessage(s@),
            Draw::FileDone => draws(v)[i] == DrawView::FileDone,
        },
{
}

/// The names and weights of the phases.
pub proof fn law_phases(idx: int)
    requires
        0 <= idx < 8,
    ensures
        phase_short(idx) == seq![
            "scan"@,
            "register"@,
            "extract"@,
            "assets"@,
            "graph"@,
            "bind"@,
            "vfs"@,
            "publish"@,
        ][idx],
        phase_long(idx) == seq![
            "Scanning project files"@,
            "Registering files"@,
            "Extracting YAML + C#"@,
            "Building assets"@,
            "Resolving entity graph"@,
            "Binding scripts"@,
            "Materializing VFS"@,
            "Publishing index"@,
        ][idx],
        phase_weight(idx) == seq![5nat, 5, 50, 5, 15, 5, 13, 2][idx],
{
}

/// A phase begins where the one before it ends; the first begins at zero, and the last ends at a hundred.
pub proof fn law_phases_follow_on_each_other(p: ProgressView, q: ProgressView, idx: usize, t: u64, u: u64)
    requires
        idx < 8,
    ensures
        idx == 0 ==> p.begun(idx, t).base == 0,
        idx < 7 ==> q.begun((idx + 1) as usize, u).base == p.begun(idx, t).base + p.begun(idx, t).weight,
        idx == 7 ==> p.begun(idx, t).base + p.begun(idx, t).weight == 100,
{
    reveal_with_fuel(weight_before, 9);
}

/// A phase begins without items. The phase before it is recorded with the time given, unless as many phases are
/// recorded as there are before the new one; counters stay.
pub proof fn law_phase_begins(p: ProgressView, idx: usize, elapsed: u64)
    requires
        idx < 8,
    ensures
        ({
            let q = p.begun(idx, elapsed);
            &&& q.phase_idx == idx
            &&& q.phase_len == 0
            &&& q.phase_pos == 0
            &&& q.bar_len == p.bar_len
            &&& q.stats == p.stats
            &&& p.phase_times.len() >= idx ==> q.phase_times == p.phase_times
            &&& p.phase_times.len() < idx ==> {
                &&& q.phase_times.len() == p.phase_times.len() + 1
                &&& q.phase_times.drop_last() == p.phase_times
                &&& q.phase_times.last().phase == p.phase_idx
                &&& q.phase_times.last().nanos == elapsed
            }
        }),
{
    let q = p.begun(idx, elapsed);
    if p.phase_times.len() < idx {
        assert(q.phase_times.drop_last() =~= p.phase_times);
    }
}

/// What becomes known of the items changes nothing else: neither the phase, nor the counters, nor the
/// times.
pub proof fn law_items_change_nothing_else(p: ProgressView, len: u64, pos: u64)
    ensures
        ({
            let q = p.with_len(len);
            &&& q.phase_len == len
            &&& q.phase_pos == p.phase_pos
            &&& len > 0 ==> q.bar_len == len
            &&& len == 0 ==> q.bar_len == p.bar_len
            &&& same_phase(p, q)
        }),
        ({
            let q = p.with_items(pos, len);
            &&& q.phase_len == len
            &&& q.phase_pos <= pos && q.phase_pos <= len && (q.phase_pos == pos || q.phase_pos == len)
            &&& p.bar_len > 0 ==> q.bar_len == p.bar_len
            &&& p.bar_len == 0 ==> q.bar_len == len
            &&& same_phase(p, q)
        }),
        ({
            let q = p.with_item_done();
            &&& q.phase_len == p.phase_len
            &&& p.phase_pos < p.phase_len ==> q.phase_pos == p.phase_pos + 1
            &&& p.phase_pos >= p.phase_len > 0 ==> q.phase_pos == p.phase_len
            &&& p.phase_len == 0 ==> q.phase_pos == p.phase_pos
            &&& q.bar_len == p.bar_len
            &&& same_phase(p, q)
        }),
        ({
            let q = p.with_phase_done();
            &&& q.phase_len == p.phase_len
            &&& q.phase_pos == p.phase_len
            &&& q.bar_len == p.bar_len
            &&& same_phase(p, q)
        }),
{
}

/// Whether phase, counters and times are the same.
pub open spec fn same_phase(p: ProgressView, q: ProgressView) -> bool {
    &&& q.phase_idx == p.phase_idx
    &&& q.base == p.base
    &&& q.weight == p.weight
    &&& q.phase_times == p.phase_times
    &&& q.stats == p.stats
}

/// Whether everything but the counters is the same.
pub open spec fn same_but_for_counters(p: ProgressView, q: ProgressView) -> bool {
    &&& q.phase_idx == p.phase_idx
    &&& q.base == p.base
    &&& q.weight == p.weight
    &&& q.phase_len == p.phase_len
    &&& q.phase_pos == p.phase_pos
    &&& q.bar_len == p.bar_len
    &&& q.phase_times == p.phase_times
}

/// Each counter grows by what is counted, and by nothing else.
pub proof fn law_counters_add_up(p: ProgressView, a: u64, b: u64, size: u64)
    ensures
        p.stats.yaml_objects + a <= u64::MAX && p.stats.yaml_refs + b <= u64::MAX && p.stats.bytes_read + size
            <= u64::MAX ==> {
            let q = p.with_yaml(a, b, size);
            &&& q.stats.yaml_objects == p.stats.yaml_objects + a
            &&& q.stats.yaml_refs == p.stats.yaml_refs + b
            &&& q.stats.bytes_read == p.stats.bytes_read + size
            &&& q.stats.cs_decls == p.stats.cs_decls
            &&& q.stats.cs_mentions == p.stats.cs_mentions
            &&& q.stats.entities == p.stats.entities
            &&& same_but_for_counters(p, q)
        },
        p.stats.cs_decls + a <= u64::MAX && p.stats.cs_mentions + b <= u64::MAX && p.stats.bytes_read + size
            <= u64::MAX ==> {
            let q = p.with_cs(a, b, size);
            &&& q.stats.cs_decls == p.stats.cs_decls + a
            &&& q.stats.cs_mentions == p.stats.cs_mentions + b
            &&& q.stats.bytes_read == p.stats.bytes_read + size
            &&& q.stats.yaml_objects == p.stats.yaml_objects
            &&& q.stats.yaml_refs == p.stats.yaml_refs
            &&& q.stats.entities == p.stats.entities
            &&& same_but_for_counters(p, q)
        },
        p.stats.entities + a <= u64::MAX ==> {
            let q = p.with_entities(a);
            &&& q.stats.entities == p.stats.entities + a
            &&& q.stats.yaml_objects == p.stats.yaml_objects
            &&& q.stats.yaml_refs == p.stats.yaml_refs
            &&& q.stats.bytes_read == p.stats.bytes_read
            &&& q.stats.cs_decls == p.stats.cs_decls
            &&& q.stats.cs_mentions == p.stats.cs_mentions
            &&& same_but_for_counters(p, q)
        },
{
}

/// A display begins in the first phase, with nothing counted and nothing recorded.
pub proof fn law_display_begins_empty()
    ensures
        ({
            let p = ProgressView::initial();
            &&& p.phase_idx == 0 && p.base == 0 && p.weight == 0
            &&& p.phase_len == 0 && p.phase_pos == 0 && p.bar_len == 0
            &&& p.phase_times.len() == 0
            &&& p.stats.yaml_objects == 0 && p.stats.yaml_refs == 0 && p.stats.bytes_read == 0
            &&& p.stats.cs_decls == 0 && p.stats.cs_mentions == 0 && p.stats.entities == 0
        }),
{
}

/// The end of a display records the last phase with its time, and changes nothing else.
pub proof fn law_last_phase_is_recorded(p: ProgressView, in_phase: u64)
    ensures
        ({
            let q = p.ended(in_phase);
            &&& q.phase_times.len() == p.phase_times.len() + 1
            &&& q.phase_times.drop_last() == p.phase_times
            &&& q.phase_times.last().phase == p.phase_idx
            &&& q.phase_times.last().nanos == in_phase
            &&& q == (ProgressView { phase_times: q.phase_times, ..p })
        }),
{
    assert(p.ended(in_phase).phase_times.drop_last() =~= p.phase_times);
}

/// What the three lines show.
pub struct Screen {
    /// The message of the overall bar.
    pub overall: Seq<char>,
    /// The position of the overall bar.
    pub overall_position: u64,
    /// The message that the overall bar was finished with.
    pub finished: Option<Seq<char>>,
    pub style: PhaseStyle,
    pub length: u64,
    pub position: u64,
    /// The message of the phase bar.
    pub message: Seq<char>,
    pub phase_cleared: bool,
    /// The message of the file line.
    pub file: Seq<char>,
    pub file_cleared: bool,
}

impl Screen {
    /// The screen after one operation.
    pub open spec fn drawn(self, draw: DrawView) -> Screen {
        match draw {
            DrawView::OverallMessage(s) => Screen { overall: s, ..self },
            DrawView::OverallPosition(n) => Screen { overall_position: n, ..self },
            DrawView::OverallDone(s) => Screen { finished: Some(s), ..self },
            DrawView::PhaseStyle(s) => Screen { style: s, ..self },
            DrawView::PhaseLength(n) => Screen { length: n, ..self },
            DrawView::PhasePosition(n) => Screen { position: n, ..self },
            DrawView::PhaseMessage(s) => Screen { message: s, ..self },
            DrawView::PhaseDone => Screen { phase_cleared: true, ..self },
            DrawView::FileMessage(s) => Screen { file: s, ..self },
            DrawView::FileDone => Screen { file_cleared: true, ..self },
        }
    }

    /// The screen after operations, in their order.
    pub open spec fn after(self, all: Seq<DrawView>) -> Screen
        decreases all.len(),
    {
        if all.len() == 0 {
            self
        } else {
            self.after(all.drop_last()).drawn(all.last())
        }
    }
}

/// Operations in two parts.
pub proof fn lemma_screen_after_both(s: Screen, a: Seq<DrawView>, b: Seq<DrawView>)
    ensures
        s.after(a + b) == s.after(a).after(b),
    decreases b.len(),
{
    if b.len() == 0 {
        assert(a + b =~= a);
    } else {
        lemma_screen_after_both(s, a, b.drop_last());
        assert((a + b).drop_last() =~= a + b.drop_last());
    }
}

/// One operation.
pub proof fn lemma_screen_after_one(s: Screen, d: DrawView)
    ensures
        s.after(seq![d]) == s.drawn(d),
{
    reveal_with_fuel(Screen::after, 2);
    assert(seq![d].drop_last() =~= Seq::<DrawView>::empty());
}

/// Two operations.
pub proof fn lemma_screen_after_two(s: Screen, c: DrawView, d: DrawView)
    ensures
        s.after(seq![c, d]) == s.drawn(c).drawn(d),
{
    lemma_screen_after_one(s, c);
    assert(seq![c, d].drop_last() =~= seq![c]);
}

/// What there is to say of the items of a phase: its name; and where the number of items is known, the
/// items done and all items, and the rate after a tenth of a second.
pub open spec fn said_of_items(p: ProgressView, elapsed: nat) -> Seq<char> {
    let name = phase_short(p.phase_idx as int);
    let items = name + " "@ + grouped(p.phase_pos as nat) + "/"@ + grouped(p.phase_len as nat);
    let speed = per_second(p.phase_pos as nat, elapsed);
    if p.phase_len == 0 {
        name
    } else if p.phase_pos == 0 || elapsed <= 100_000_000 {
        items
    } else if speed < 10_000 {
        items + " · "@ + grouped(speed) + "/s"@
    } else {
        items + " · "@ + short(speed) + "/s"@
    }
}

/// A counter with its unit, where anything was counted.
pub open spec fn said_of(count: u64, unit: Seq<char>) -> Seq<char> {
    if count == 0 {
        Seq::empty()
    } else {
        " · "@ + short(count as nat) + unit
    }
}

/// What there is to say of what was found: objects, references, declarations and bytes in extraction, and
/// entities in the graph.
pub open spec fn said_of_findings(p: ProgressView) -> Seq<char> {
    let size = if p.stats.bytes_read == 0 {
        Seq::empty()
    } else {
        " · "@ + bytes(p.stats.bytes_read as nat)
    };
    if p.phase_idx == 2 {
        said_of(p.stats.yaml_objects, " objs"@) + said_of(p.stats.yaml_refs, " refs"@) + said_of(
            p.stats.cs_decls,
            " decls"@,
        ) + size
    } else if p.phase_idx == 4 {
        said_of(p.stats.entities, " entities"@)
    } else {
        Seq::empty()
    }
}

/// Whether the message of a phase says what there is to say.
pub open spec fn says(message: Seq<char>, p: ProgressView, elapsed: nat) -> bool {
    message == said_of_items(p, elapsed) + said_of_findings(p)
}

proof fn lemma_says(p: ProgressView, elapsed: nat)
    ensures
        says(p.items_message(elapsed) + p.stats_message(), p, elapsed),
{
    assert(p.items_message(elapsed) =~= said_of_items(p, elapsed));
    assert(p.stats_message() =~= said_of_findings(p));
}

/// Bringing the bars up to date shows the state, whatever they showed before: the overall bar names the
/// phase by its number and name and stands at the overall position, the phase bar stands at the items done
/// where their number is known, and its message says what there is to say. The file line stays.
pub proof fn law_render_shows_the_state(s: Screen, p: ProgressView, elapsed: nat)
    requires
        p.wf(),
    ensures
        ({
            let t = s.after(p.render_spec(elapsed));
            &&& t.overall == digits((p.phase_idx + 1) as nat) + "/8 "@ + phase_short(p.phase_idx as int)
            &&& t.overall_position == p.overall_position()
            &&& p.phase_len > 0 ==> t.position == p.phase_pos
            &&& p.phase_len == 0 ==> t.position == s.position
            &&& says(t.message, p, elapsed)
            &&& t.style == s.style && t.length == s.length && t.file == s.file && t.finished == s.finished
            &&& t.phase_cleared == s.phase_cleared && t.file_cleared == s.file_cleared
        }),
{
    reveal(ProgressView::render_spec);
    lemma_says(p, elapsed);
    crate::progress::law_position_within_phase(p);
    let first = seq![DrawView::OverallMessage(p.overall_message())];
    let middle = if p.phase_len > 0 {
        seq![DrawView::PhasePosition(p.phase_pos)]
    } else {
        Seq::empty()
    };
    let message = DrawView::PhaseMessage(p.items_message(elapsed) + p.stats_message());
    let position = DrawView::OverallPosition(p.overall_position() as u64);
    lemma_screen_after_one(s, first[0]);
    lemma_screen_after_both(s, first, middle);
    if p.phase_len > 0 {
        lemma_screen_after_one(s.after(first), middle[0]);
    }
    lemma_screen_after_both(s, first + middle, seq![message, position]);
    lemma_screen_after_two(s.after(first + middle), message, position);
}

/// A new phase clears the file line, and shows a spinner and the state.
pub proof fn law_new_phase_is_shown(s: Screen, p: ProgressView)
    requires
        p.wf(),
    ensures
        ({
            let t = s.after(p.begin_draws());
            &&& t.file.len() == 0
            &&& t.style == PhaseStyle::Message
            &&& t.overall == digits((p.phase_idx + 1) as nat) + "/8 "@ + phase_short(p.phase_idx as int)
            &&& t.overall_position == p.overall_position()
            &&& says(t.message, p, 0)
            &&& p.phase_len > 0 ==> t.position == p.phase_pos
            &&& t.length == s.length
        }),
{
    let head = seq![DrawView::FileMessage(Seq::empty()), DrawView::PhaseStyle(PhaseStyle::Message)];
    lemma_screen_after_both(s, head, p.render_spec(0));
    lemma_screen_after_two(s, head[0], head[1]);
    law_render_shows_the_state(s.after(head), p, 0);
}

/// A bar is set up with its length where one is to appear, and otherwise left alone.
pub proof fn law_bar_appears(s: Screen, on: bool, len: u64)
    ensures
        ({
            let t = s.after(bar_setup(on, len));
            &&& on ==> t == (Screen { length: len, style: PhaseStyle::Bar, ..s })
            &&& !on ==> t == s
        }),
{
    if on {
        lemma_screen_after_two(s, DrawView::PhaseLength(len), DrawView::PhaseStyle(PhaseStyle::Bar));
    }
}

/// The end of a phase shows all of its items as done; a phase with items has moved the overall bar by its
/// whole weight.
pub proof fn law_end_of_phase_is_shown(s: Screen, p: ProgressView, elapsed: nat)
    requires
        p.wf(),
    ensures
        ({
            let t = s.after(p.done_draws(elapsed));
            &&& p.phase_len > 0 ==> t.position == p.phase_len && t.overall_position == p.base + p.weight
            &&& p.phase_len == 0 ==> t.position == s.position
            &&& t.overall == digits((p.phase_idx + 1) as nat) + "/8 "@ + phase_short(p.phase_idx as int)
            &&& says(t.message, ProgressView { phase_pos: p.phase_len, ..p }, elapsed)
            &&& t.style == s.style && t.length == s.length && t.file == s.file
        }),
{
    let q = p.with_phase_done();
    let first = if p.phase_len > 0 {
        seq![DrawView::PhasePosition(p.phase_len)]
    } else {
        Seq::empty()
    };
    let second = seq![DrawView::OverallPosition((p.base + p.weight) as u64)];
    if p.phase_len > 0 {
        lemma_screen_after_one(s, first[0]);
        law_finished_phase_counts_in_full(q);
    }
    lemma_screen_after_both(s, first, second);
    lemma_screen_after_one(s.after(first), second[0]);
    lemma_screen_after_both(s, first + second, q.render_spec(elapsed));
    law_render_shows_the_state(s.after(first + second), q, elapsed);
}

/// While the number of files is unknown the phase bar says how many were found so far, and how many in a
/// second after a tenth of one; nothing else changes.
pub proof fn law_files_found_are_shown(s: Screen, count: nat, elapsed: nat)
    ensures
        ({
            let t = s.after(walking_draws(count, elapsed));
            let found = "scan · "@ + grouped(count) + " files found"@;
            &&& t == (Screen { message: t.message, ..s })
            &&& elapsed <= 100_000_000 || count == 0 ==> t.message == found
            &&& elapsed > 100_000_000 && count > 0 ==> t.message == found + " · "@ + short(per_second(count, elapsed))
                + "/s"@
        }),
{
    let draw = walking_draws(count, elapsed)[0];
    lemma_screen_after_one(s, draw);
    assert(walking_draws(count, elapsed) =~= seq![draw]);
    let t = s.after(walking_draws(count, elapsed));
    let found = "scan · "@ + grouped(count) + " files found"@;
    if elapsed <= 100_000_000 || count == 0 {
        assert(t.message =~= found);
    } else {
        assert(t.message =~= found + " · "@ + short(per_second(count, elapsed)) + "/s"@);
    }
}

/// Progress of discovery: where the total is known the bar stands at the files done, and appears with the
/// first total.
pub proof fn law_discovery_is_shown(s: Screen, p: ProgressView, done: u64, total: u64, elapsed: nat)
    requires
        p.wf(),
        total > 0,
    ensures
        ({
            let t = s.after(p.discovery_draws(done, Some(total), elapsed));
            &&& done <= total ==> t.position == done
            &&& done > total ==> t.position == total
            &&& p.bar_len == 0 ==> t.length == total && t.style == PhaseStyle::Bar
            &&& p.bar_len > 0 ==> t.length == s.length && t.style == s.style
            &&& t.file == s.file
        }),
{
    let q = p.with_items(done, total);
    let setup = bar_setup(total > 0 && p.bar_len == 0, total);
    lemma_screen_after_both(s, setup, q.render_spec(elapsed));
    law_bar_appears(s, total > 0 && p.bar_len == 0, total);
    law_render_shows_the_state(s.after(setup), q, elapsed);
}

/// The file line shows a path of up to 58 bytes as it is. Of a longer one it shows an ellipsis and the end
/// of the path, which takes up 58 bytes.
pub proof fn law_path_is_shown_from_its_end(path: Seq<char>)
    requires
        can_cut(path),
    ensures
        encode_utf8(path).len() <= 58 ==> shown_path(path) == path,
        encode_utf8(path).len() > 58 ==> {
            let end = shown_path(path).skip(1);
            &&& shown_path(path).len() > 0 && shown_path(path)[0] == '…'
            &&& encode_utf8(end).len() == 58
            &&& end.len() <= path.len()
            &&& path.skip(path.len() - end.len()) == end
        },
{
    let encoded = encode_utf8(path);
    if encoded.len() > 58 {
        let cut = encoded.len() - 58;
        encode_utf8_valid_utf8(path);
        encode_utf8_decode_utf8(path);
        valid_utf8_split(encoded, cut);
        decode_utf8_split(encoded, cut);
        let tail = encoded.subrange(cut, encoded.len() as int);
        decode_utf8_encode_utf8(tail);
        reveal_strlit("…");
        let end = shown_path(path).skip(1);
        assert(end =~= decode_utf8(tail));
        let front = decode_utf8(encoded.subrange(0, cut));
        assert(path == front + end);
        assert(path.skip(path.len() - end.len()) =~= end);
    }
}

/// The breakdown has a line for each recorded phase, in its order, behind an empty line and a heading. A
/// line gives the name of the phase, from the fifth column on, and its time in seconds, right-aligned, and
/// ends in the bar.
pub proof fn law_breakdown_has_a_line_for_each_phase(times: Seq<PhaseTime>, i: int)
    requires
        0 <= i < times.len(),
        times[i].phase < 8,
    ensures
        ({
            let lines = breakdown(times);
            let line = lines[i + 2];
            let name = phase_short(times[i].phase as int);
            let figure = seconds_text(times[i].nanos as nat);
            &&& lines.len() == times.len() + 2
            &&& lines[0].len() == 0
            &&& lines[1] == "  phase breakdown:"@
            &&& exists|cells: nat| #[trigger] has_columns(line, name, figure, cells)
        }),
{
    let lines = breakdown(times);
    let line = lines[i + 2];
    let name = phase_short(times[i].phase as int);
    let figure = seconds_text(times[i].nanos as nat);
    let cells = bar_cells(times[i].nanos as nat, longest(times));
    assert(line == crate::progress::breakdown_line(times[i], longest(times)));
    lemma_columns(line, name, figure, cells);
}

/// The longest phase has a bar of 24 cells, and no other has more.
pub proof fn law_longest_phase_has_the_longest_bar(times: Seq<PhaseTime>, i: int, j: int)
    requires
        0 <= i < times.len(),
        0 <= j < times.len(),
        times[i].phase < 8,
        times[j].phase < 8,
        times[i].nanos > 0,
        forall|k: int| 0 <= k < times.len() ==> (#[trigger] times[k]).nanos <= times[i].nanos,
    ensures
        has_columns(
            breakdown(times)[i + 2],
            phase_short(times[i].phase as int),
            seconds_text(times[i].nanos as nat),
            24,
        ),
        exists|cells: nat|
            cells <= 24 && #[trigger] has_columns(
                breakdown(times)[j + 2],
                phase_short(times[j].phase as int),
                seconds_text(times[j].nanos as nat),
                cells,
            ),
{
    lemma_longest_is(times, i);
    let max = times[i].nanos as nat;
    law_bar_cells(max, max);
    law_bar_cells(times[j].nanos as nat, max);
    lemma_columns(
        breakdown(times)[i + 2],
        phase_short(times[i].phase as int),
        seconds_text(times[i].nanos as nat),
        24,
    );
    lemma_columns(
        breakdown(times)[j + 2],
        phase_short(times[j].phase as int),
        seconds_text(times[j].nanos as nat),
        bar_cells(times[j].nanos as nat, max),
    );
}

proof fn lemma_longest_bounds(times: Seq<PhaseTime>, max: nat)
    requires
        forall|k: int| 0 <= k < times.len() ==> (#[trigger] times[k]).nanos <= max,
    ensures
        longest(times) <= max,
        forall|k: int| 0 <= k < times.len() ==> (#[trigger] times[k]).nanos <= longest(times),
    decreases times.len(),
{
    if times.len() > 0 {
        let rest = times.drop_last();
        assert forall|k: int| 0 <= k < rest.len() implies (#[trigger] rest[k]).nanos <= max by {
            assert(rest[k] == times[k]);
        }
        lemma_longest_bounds(rest, max);
        assert(times[times.len() - 1] == times.last());
        assert forall|k: int| 0 <= k < times.len() implies (#[trigger] times[k]).nanos <= longest(times) by {
            if k < rest.len() {
                assert(rest[k] == times[k]);
            }
        }
    }
}

proof fn lemma_longest_is(times: Seq<PhaseTime>, i: int)
    requires
        0 <= i < times.len(),
        forall|k: int| 0 <= k < times.len() ==> (#[trigger] times[k]).nanos <= times[i].nanos,
    ensures
        longest(times) == times[i].nanos,
{
    lemma_longest_bounds(times, times[i].nanos as nat);
}

/// Of two phases the longer one has no shorter bar.
pub proof fn law_bars_grow_with_time(a: nat, b: nat, max: nat)
    requires
        a <= b <= max <= u64::MAX,
    ensures
        bar_cells(a, max) <= bar_cells(b, max),
{
    if max > 0 {
        lemma2_to64_rest();
        let y = seconds(max);
        law_seconds_positive(max);
        law_seconds_monotone(a, b);
        law_quotient_monotone(seconds(a), seconds(b), y);
        let p = quotient(seconds(a), y);
        let q = quotient(seconds(b), y);
        let w = of_int(24);
        assert(p.mant * w.mant == w.mant * p.mant) by (nonlinear_arith);
        assert(q.mant * w.mant == w.mant * q.mant) by (nonlinear_arith);
        law_product_monotone(w, p, q);
        law_round_monotone(product(w, p), product(w, q));
    }
}

/// Whether a line has a name in the fifth to fourteenth column, a figure up to the twenty-first column
/// and a bar of so many cells, where name and figure are no longer than that.
pub open spec fn has_columns(line: Seq<char>, name: Seq<char>, figure: Seq<char>, cells: nat) -> bool {
    name.len() <= 10 && figure.len() <= 6 ==> {
        &&& line.len() == 24 + cells
        &&& line.subrange(4, 4 + name.len() as int) == name
        &&& line.subrange(21 - figure.len() as int, 21) == figure
        &&& line[21] == 's'
        &&& forall|k: int|
            0 <= k < 24 && !(4 <= k < 4 + name.len()) && !(21 - figure.len() <= k <= 21) ==> #[trigger] line[k] == ' '
        &&& forall|k: int| 24 <= k < line.len() ==> #[trigger] line[k] == '█'
    }
}

proof fn lemma_columns(line: Seq<char>, name: Seq<char>, figure: Seq<char>, cells: nat)
    requires
        line == "    "@ + name + spaces(10 - name.len()) + " "@ + spaces(6 - figure.len()) + figure + "s  "@
            + Seq::new(cells, |i: int| '█'),
    ensures
        has_columns(line, name, figure, cells),
{
    reveal_strlit("    ");
    reveal_strlit(" ");
    reveal_strlit("s  ");
    if name.len() <= 10 && figure.len() <= 6 {
        assert(line.subrange(4, 4 + name.len() as int) =~= name);
        assert(line.subrange(21 - figure.len() as int, 21) =~= figure);
    }
}

/// The closing line tells the time, the place of the index, how many files, assets and bound scripts there
/// are, and how many files a second; without any time that is none.
pub proof fn law_closing_line(elapsed: nat, index: Seq<char>, files: nat, assets: nat, bound: nat)
    ensures
        ({
            let speed = if elapsed == 0 {
                0
            } else {
                decimal_digits(quotient(of_int(files), seconds(elapsed)), 1)
            };
            summary_text(elapsed, index, files, assets, bound) == "✅ Index built in "@ + seconds_text(elapsed)
                + "s: "@ + index + " ("@ + grouped(files) + " files, "@ + grouped(assets) + " assets, "@ + grouped(
                bound,
            ) + " scripts bound, "@ + grouped(speed) + " files/s)"@
        }),
{
}

/// A time is shown in tenths of a second.
pub proof fn law_time_is_shown_in_tenths(nanos: nat)
    ensures
        ({
            let s = seconds_text(nanos);
            let n = s.len() - 2;
            &&& n > 0
            &&& s[n] == '.'
            &&& 10 * value(s.take(n)) + (s[n + 1] as int - '0' as int) == decimal_digits(seconds(nanos), 10)
        }),
{
    law_one_place_reads_back(decimal_digits(seconds(nanos), 10));
}

} // verus!
