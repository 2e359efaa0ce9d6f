//! Weighted multi-bar progress of an index build.
//!
//! Three live lines are shown: the overall bar, weighted by what the phases really cost, the bar of
//! the current phase with its counters, and the file in work. [`IndexProgress`] holds the state and
//! decides what each line shows; its methods return the bar operations to perform, in order.
use crate::command::texts;
use crate::double::{decimal_digits, of_int, product, quotient, round, seconds, Binary, Double};
use crate::figures::{bytes, fmt_bytes, fmt_exact, fmt_grouped, fmt_short, grouped, per_second, rate, ratio, short};
use crate::rounding::{
    law_of_int_monotone, law_product_monotone, law_product_with_one, law_quotient_by_itself, law_quotient_monotone,
    law_round_monotone, law_seconds_monotone, law_seconds_positive, lemma_nearest_scale,
};
use crate::text::{decimal_one_place, one_place};
use vstd::arithmetic::power2::{lemma2_to64_rest, pow2};
use vstd::prelude::*;
use vstd::utf8::{decode_utf8, encode_utf8, encode_utf8_decode_utf8, is_char_boundary};

verus! {

/// A phase of the build.
pub struct Phase {
    pub long: &'static str,
    pub short: &'static str,
    /// Its share of the whole build.
    pub weight: u64,
}

/// The number of phases.
pub const PHASE_COUNT: usize = 8;

/// The sum of the weights of all phases.
pub const TOTAL_WEIGHT: u64 = 100;

/// The most bytes of a path that the file line shows.
pub const CURRENT_FILE_MAX: usize = 58;

/// The short name of a phase.
pub open spec fn phase_short(idx: int) -> Seq<char> {
    if idx == 0 {
        "scan"@
    } else if idx == 1 {
        "register"@
    } else if idx == 2 {
        "extract"@
    } else if idx == 3 {
        "assets"@
    } else if idx == 4 {
        "graph"@
    } else if idx == 5 {
        "bind"@
    } else if idx == 6 {
        "vfs"@
    } else {
        "publish"@
    }
}

/// The long name of a phase.
pub open spec fn phase_long(idx: int) -> Seq<char> {
    if idx == 0 {
        "Scanning project files"@
    } else if idx == 1 {
        "Registering files"@
    } else if idx == 2 {
        "Extracting YAML + C#"@
    } else if idx == 3 {
        "Building assets"@
    } else if idx == 4 {
        "Resolving entity graph"@
    } else if idx == 5 {
        "Binding scripts"@
    } else if idx == 6 {
        "Materializing VFS"@
    } else {
        "Publishing index"@
    }
}

/// The weight of a phase.
pub open spec fn phase_weight(idx: int) -> nat {
    if idx == 2 {
        50
    } else if idx == 4 {
        15
    } else if idx == 6 {
        13
    } else if idx == 7 {
        2
    } else {
        5
    }
}

/// The weight of all phases before `idx`.
pub open spec fn weight_before(idx: nat) -> nat
    decreases idx,
{
    if idx == 0 {
        0
    } else {
        weight_before((idx - 1) as nat) + phase_weight(idx - 1)
    }
}

/// The phases in their order.
pub fn phase_at(idx: usize) -> (r: Phase)
    requires
        idx < PHASE_COUNT,
    ensures
        r.long@ == phase_long(idx as int),
        r.short@ == phase_short(idx as int),
        r.weight == phase_weight(idx as int),
{
    if idx == 0 {
        Phase { long: "Scanning project files", short: "scan", weight: 5 }
    } else if idx == 1 {
        Phase { long: "Registering files", short: "register", weight: 5 }
    } else if idx == 2 {
        Phase { long: "Extracting YAML + C#", short: "extract", weight: 50 }
    } else if idx == 3 {
        Phase { long: "Building assets", short: "assets", weight: 5 }
    } else if idx == 4 {
        Phase { long: "Resolving entity graph", short: "graph", weight: 15 }
    } else if idx == 5 {
        Phase { long: "Binding scripts", short: "bind", weight: 5 }
    } else if idx == 6 {
        Phase { long: "Materializing VFS", short: "vfs", weight: 13 }
    } else {
        Phase { long: "Publishing index", short: "publish", weight: 2 }
    }
}

/// Live counters shown on the phase bar.
#[derive(Clone, Copy, Debug, PartialEq, Eq)]
pub struct LiveStats {
    pub yaml_objects: u64,
    pub yaml_refs: u64,
    pub cs_decls: u64,
    pub cs_mentions: u64,
    pub entities: u64,
    pub bytes_read: u64,
}

/// How long a phase took.
#[derive(Clone, Copy, Debug, PartialEq, Eq)]
pub struct PhaseTime {
    pub phase: usize,
    pub nanos: u64,
}

/// The two styles of the phase bar.
#[derive(Clone, Copy, Debug, PartialEq, Eq)]
pub enum PhaseStyle {
    /// A spinner and the message.
    Message,
    /// A spinner, a bar and the message.
    Bar,
}

/// An operation on one of the three bars.
#[derive(Debug, PartialEq, Eq)]
pub enum Draw {
    OverallMessage(String),
    OverallPosition(u64),
    /// Finishes the overall bar with a message.
    OverallDone(String),
    PhaseStyle(PhaseStyle),
    PhaseLength(u64),
    PhasePosition(u64),
    PhaseMessage(String),
    /// Finishes and clears the phase bar.
    PhaseDone,
    FileMessage(String),
    /// Finishes and clears the file bar.
    FileDone,
}

/// What a [`Draw`] shows.
pub enum DrawView {
    OverallMessage(Seq<char>),
    OverallPosition(u64),
    OverallDone(Seq<char>),
    PhaseStyle(PhaseStyle),
    PhaseLength(u64),
    PhasePosition(u64),
    PhaseMessage(Seq<char>),
    PhaseDone,
    FileMessage(Seq<char>),
    FileDone,
}

impl View for Draw {
    type V = DrawView;

    open spec fn view(&self) -> DrawView {
        match self {
            Draw::OverallMessage(s) => DrawView::OverallMessage(s@),
            Draw::OverallPosition(n) => DrawView::OverallPosition(*n),
            Draw::OverallDone(s) => DrawView::OverallDone(s@),
            Draw::PhaseStyle(s) => DrawView::PhaseStyle(*s),
            Draw::PhaseLength(n) => DrawView::PhaseLength(*n),
            Draw::PhasePosition(n) => DrawView::PhasePosition(*n),
            Draw::PhaseMessage(s) => DrawView::PhaseMessage(s@),
            Draw::PhaseDone => DrawView::PhaseDone,
            Draw::FileMessage(s) => DrawView::FileMessage(s@),
            Draw::FileDone => DrawView::FileDone,
        }
    }
}

/// What a list of operations shows.
pub open spec fn draws(v: Seq<Draw>) -> Seq<DrawView> {
    v.map_values(|d: Draw| d@)
}

/// The state of the progress display.
pub struct IndexProgress {
    /// The current phase.
    pub phase_idx: usize,
    /// The weight of the phases before the current one.
    pub base: u64,
    /// The weight of the current phase, or zero before the first one has begun.
    pub weight: u64,
    /// The item count of the current phase, or zero where it is unknown.
    pub phase_len: u64,
    /// The items done in the current phase.
    pub phase_pos: u64,
    /// The length that the phase bar was given last.
    pub bar_len: u64,
    /// The phases that have ended.
    pub phase_times: Vec<PhaseTime>,
    pub stats: LiveStats,
}

/// What an [`IndexProgress`] holds.
pub struct ProgressView {
    pub phase_idx: usize,
    pub base: u64,
    pub weight: u64,
    pub phase_len: u64,
    pub phase_pos: u64,
    pub bar_len: u64,
    pub phase_times: Seq<PhaseTime>,
    pub stats: LiveStats,
}

impl View for IndexProgress {
    type V = ProgressView;

    open spec fn view(&self) -> ProgressView {
        ProgressView {
            phase_idx: self.phase_idx,
            base: self.base,
            weight: self.weight,
            phase_len: self.phase_len,
            phase_pos: self.phase_pos,
            bar_len: self.bar_len,
            phase_times: self.phase_times@,
            stats: self.stats,
        }
    }
}

/// The figure of a rate: 2,615 in full, larger ones compact.
pub open spec fn rate_figure(per_second: nat) -> Seq<char> {
    if per_second < 10_000 {
        grouped(per_second)
    } else {
        short(per_second)
    }
}

/// The addition to a phase message on the rate: nothing in the first tenth of a second.
pub open spec fn rate_part(count: nat, elapsed: nat) -> Seq<char> {
    if elapsed > 100_000_000 && count > 0 {
        " · "@ + rate_figure(per_second(count, elapsed)) + "/s"@
    } else {
        Seq::empty()
    }
}

/// The addition to a phase message on a counter: nothing while the counter is zero.
pub open spec fn counter_part(count: nat, unit: Seq<char>) -> Seq<char> {
    if count > 0 {
        " · "@ + short(count) + unit
    } else {
        Seq::empty()
    }
}

/// The addition to a phase message on the bytes read.
pub open spec fn bytes_part(count: nat) -> Seq<char> {
    if count > 0 {
        " · "@ + bytes(count)
    } else {
        Seq::empty()
    }
}

/// Whether all times are those of phases.
pub open spec fn known_phases(times: Seq<PhaseTime>) -> bool {
    forall|i: int| 0 <= i < times.len() ==> (#[trigger] times[i]).phase < PHASE_COUNT
}

impl ProgressView {
    /// The phases exist, and base and weight are those of the current phase.
    pub open spec fn wf(self) -> bool {
        &&& self.phase_idx < PHASE_COUNT
        &&& self.base == weight_before(self.phase_idx as nat)
        &&& self.weight == 0 || self.weight == phase_weight(self.phase_idx as int)
        &&& known_phases(self.phase_times)
    }

    /// The display before the first phase.
    pub open spec fn initial() -> ProgressView {
        ProgressView {
            phase_idx: 0,
            base: 0,
            weight: 0,
            phase_len: 0,
            phase_pos: 0,
            bar_len: 0,
            phase_times: Seq::empty(),
            stats: LiveStats {
                yaml_objects: 0,
                yaml_refs: 0,
                cs_decls: 0,
                cs_mentions: 0,
                entities: 0,
                bytes_read: 0,
            },
        }
    }

    /// The message of the overall bar.
    pub open spec fn overall_message(self) -> Seq<char> {
        crate::text::digits((self.phase_idx + 1) as nat) + "/8 "@ + phase_short(self.phase_idx as int)
    }

    /// The phase message up to the live counters.
    pub open spec fn items_message(self, elapsed: nat) -> Seq<char> {
        if self.phase_len > 0 {
            phase_short(self.phase_idx as int) + " "@ + grouped(self.phase_pos as nat) + "/"@ + grouped(
                self.phase_len as nat,
            ) + rate_part(self.phase_pos as nat, elapsed)
        } else {
            phase_short(self.phase_idx as int)
        }
    }

    /// The live counters: extraction figures in the extraction phase, entities in the graph phase.
    pub open spec fn stats_message(self) -> Seq<char> {
        if self.phase_idx == 2 {
            counter_part(self.stats.yaml_objects as nat, " objs"@) + counter_part(
                self.stats.yaml_refs as nat,
                " refs"@,
            ) + counter_part(self.stats.cs_decls as nat, " decls"@) + bytes_part(self.stats.bytes_read as nat)
        } else if self.phase_idx == 4 {
            counter_part(self.stats.entities as nat, " entities"@)
        } else {
            Seq::empty()
        }
    }

    /// How much of the current phase is done, in units of weight.
    pub open spec fn weight_done(self) -> nat {
        if self.phase_len > 0 {
            round(product(of_int(self.weight as nat), ratio(self.phase_pos as nat, self.phase_len as nat)))
        } else {
            0
        }
    }

    /// The position of the overall bar.
    pub open spec fn overall_position(self) -> nat {
        if self.weight_done() <= self.weight {
            self.base as nat + self.weight_done()
        } else {
            (self.base + self.weight) as nat
        }
    }

    /// The operations that bring all bars up to date.
    #[verifier::opaque]
    pub open spec fn render_spec(self, elapsed: nat) -> Seq<DrawView> {
        let position = if self.phase_len > 0 {
            seq![DrawView::PhasePosition(self.phase_pos)]
        } else {
            Seq::empty()
        };
        seq![DrawView::OverallMessage(self.overall_message())] + position + seq![
            DrawView::PhaseMessage(self.items_message(elapsed) + self.stats_message()),
            DrawView::OverallPosition(self.overall_position() as u64),
        ]
    }
}

impl IndexProgress {
    /// The display before the first phase.
    pub fn new() -> (r: IndexProgress)
        ensures
            r@.wf(),
            r@ == ProgressView::initial(),
    {
        IndexProgress {
            phase_idx: 0,
            base: 0,
            weight: 0,
            phase_len: 0,
            phase_pos: 0,
            bar_len: 0,
            phase_times: Vec::new(),
            stats: LiveStats {
                yaml_objects: 0,
                yaml_refs: 0,
                cs_decls: 0,
                cs_mentions: 0,
                entities: 0,
                bytes_read: 0,
            },
        }
    }

    /// The message of the phase bar.
    fn phase_message(&self, elapsed: u64) -> (msg: String)
        requires
            self@.wf(),
        ensures
            msg@ == self@.items_message(elapsed as nat) + self@.stats_message(),
    {
        let mut msg = phase_at(self.phase_idx).short.to_owned();
        if self.phase_len > 0 {
            msg.append(" ");
            let done = fmt_exact(self.phase_pos);
            msg.append(done.as_str());
            msg.append("/");
            let total = fmt_exact(self.phase_len);
            msg.append(total.as_str());
            append_rate(&mut msg, self.phase_pos, elapsed);
        }
        assert(msg@ == self@.items_message(elapsed as nat));
        self.append_stats(&mut msg);
        msg
    }

    /// Appends the live counters to a phase message.
    fn append_stats(&self, msg: &mut String)
        ensures
            final(msg)@ == old(msg)@ + self@.stats_message(),
    {
        if self.phase_idx == 2 {
            append_counter(msg, self.stats.yaml_objects, " objs");
            append_counter(msg, self.stats.yaml_refs, " refs");
            append_counter(msg, self.stats.cs_decls, " decls");
            if self.stats.bytes_read > 0 {
                msg.append(" · ");
                let size = fmt_bytes(self.stats.bytes_read);
                msg.append(size.as_str());
            }
        } else if self.phase_idx == 4 {
            append_counter(msg, self.stats.entities, " entities");
        }
        assert(msg@ =~= old(msg)@ + self@.stats_message());
    }

    /// The position of the overall bar.
    fn position(&self) -> (r: u64)
        requires
            self@.wf(),
        ensures
            r == self@.overall_position(),
            r <= TOTAL_WEIGHT,
    {
        proof {
            lemma_weights(self.phase_idx as nat);
        }
        let done: u64 = if self.phase_len > 0 {
            let frac = Double::of_u64(self.phase_pos).divide(Double::of_u64(self.phase_len));
            Double::of_u64(self.weight).multiply(frac).round_to_u64()
        } else {
            0
        };
        if done <= self.weight {
            self.base + done
        } else {
            self.base + self.weight
        }
    }

    /// Brings all bars up to date. `elapsed` is the time since the phase began, in nanoseconds.
    pub fn render(&self, elapsed: u64) -> (r: Vec<Draw>)
        requires
            self@.wf(),
        ensures
            draws(r@) == self@.render_spec(elapsed as nat),
    {
        let mut overall = crate::text::decimal((self.phase_idx + 1) as u128);
        overall.append("/8 ");
        overall.append(phase_at(self.phase_idx).short);
        let mut out: Vec<Draw> = Vec::new();
        out.push(Draw::OverallMessage(overall));
        if self.phase_len > 0 {
            out.push(Draw::PhasePosition(self.phase_pos));
        }
        out.push(Draw::PhaseMessage(self.phase_message(elapsed)));
        out.push(Draw::OverallPosition(self.position()));
        proof {
            reveal(ProgressView::render_spec);
        }
        assert(draws(out@) =~= self@.render_spec(elapsed as nat));
        out
    }
}

/// The addition to the message on files found: their rate in compact form, and nothing in the first
/// tenth of a second.
pub open spec fn walking_rate_part(count: nat, elapsed: nat) -> Seq<char> {
    if elapsed > 100_000_000 && count > 0 {
        " · "@ + short(per_second(count, elapsed)) + "/s"@
    } else {
        Seq::empty()
    }
}

/// The operations while the number of files is unknown.
pub open spec fn walking_draws(count: nat, elapsed: nat) -> Seq<DrawView> {
    seq![DrawView::PhaseMessage("scan · "@ + grouped(count) + " files found"@ + walking_rate_part(count, elapsed))]
}

/// The text of the file line: the path, or the end of a long one.
pub open spec fn shown_path(path: Seq<char>) -> Seq<char> {
    let encoded = encode_utf8(path);
    if encoded.len() > CURRENT_FILE_MAX {
        "…"@ + decode_utf8(encoded.subrange(encoded.len() - CURRENT_FILE_MAX, encoded.len() as int))
    } else {
        path
    }
}

/// Whether a long path can be cut [`CURRENT_FILE_MAX`] bytes before its end.
pub open spec fn can_cut(path: Seq<char>) -> bool {
    let encoded = encode_utf8(path);
    encoded.len() > CURRENT_FILE_MAX ==> is_char_boundary(encoded, encoded.len() - CURRENT_FILE_MAX)
}

/// Whether the file line can show a path.
pub fn can_show_path(path: &str) -> (r: bool)
    ensures
        r == can_cut(path@),
{
    let len = path.as_bytes().len();
    len <= CURRENT_FILE_MAX || path.is_char_boundary(len - CURRENT_FILE_MAX)
}

impl ProgressView {
    /// The display after the phase has changed to `idx`. The phase before it is recorded unless it
    /// was already.
    pub open spec fn begun(self, idx: usize, elapsed: u64) -> ProgressView {
        ProgressView {
            phase_idx: idx,
            base: weight_before(idx as nat) as u64,
            weight: phase_weight(idx as int) as u64,
            phase_len: 0,
            phase_pos: 0,
            phase_times: if idx > 0 && self.phase_times.len() < idx {
                self.phase_times.push(PhaseTime { phase: self.phase_idx, nanos: elapsed })
            } else {
                self.phase_times
            },
            ..self
        }
    }

    /// The operations on the beginning of a phase.
    pub open spec fn begin_draws(self) -> Seq<DrawView> {
        seq![DrawView::FileMessage(Seq::empty()), DrawView::PhaseStyle(PhaseStyle::Message)] + self.render_spec(0)
    }

    /// The display with the item count known.
    pub open spec fn with_len(self, len: u64) -> ProgressView {
        ProgressView { phase_len: len, bar_len: if len > 0 { len } else { self.bar_len }, ..self }
    }

    /// The display with progress within the phase.
    pub open spec fn with_items(self, pos: u64, total: u64) -> ProgressView {
        ProgressView {
            phase_len: total,
            phase_pos: if pos <= total { pos } else { total },
            bar_len: if total > 0 && self.bar_len == 0 { total } else { self.bar_len },
            ..self
        }
    }

    /// The operations while files are being found.
    pub open spec fn discovery_draws(self, done: u64, total: Option<u64>, elapsed: nat) -> Seq<DrawView> {
        match total {
            Some(total) => bar_setup(total > 0 && self.bar_len == 0, total) + self.with_items(done, total).render_spec(
                elapsed,
            ),
            None => walking_draws(done as nat, elapsed),
        }
    }

    /// The display after a Unity YAML file.
    pub open spec fn with_yaml(self, objects: u64, refs: u64, bytes: u64) -> ProgressView {
        ProgressView {
            stats: LiveStats {
                yaml_objects: (self.stats.yaml_objects + objects) as u64,
                yaml_refs: (self.stats.yaml_refs + refs) as u64,
                bytes_read: (self.stats.bytes_read + bytes) as u64,
                ..self.stats
            },
            ..self
        }
    }

    /// The display after a C# file.
    pub open spec fn with_cs(self, decls: u64, mentions: u64, bytes: u64) -> ProgressView {
        ProgressView {
            stats: LiveStats {
                cs_decls: (self.stats.cs_decls + decls) as u64,
                cs_mentions: (self.stats.cs_mentions + mentions) as u64,
                bytes_read: (self.stats.bytes_read + bytes) as u64,
                ..self.stats
            },
            ..self
        }
    }

    /// The display after more entities.
    pub open spec fn with_entities(self, n: u64) -> ProgressView {
        ProgressView { stats: LiveStats { entities: (self.stats.entities + n) as u64, ..self.stats }, ..self }
    }

    /// The display after one more item, where the item count is known.
    pub open spec fn with_item_done(self) -> ProgressView {
        ProgressView {
            phase_pos: if self.phase_len == 0 {
                self.phase_pos
            } else if self.phase_pos < self.phase_len {
                (self.phase_pos + 1) as u64
            } else {
                self.phase_len
            },
            ..self
        }
    }

    /// The display with all items of the phase done.
    pub open spec fn with_phase_done(self) -> ProgressView {
        ProgressView { phase_pos: self.phase_len, ..self }
    }

    /// The operations on the end of a phase.
    pub open spec fn done_draws(self, elapsed: nat) -> Seq<DrawView> {
        (if self.phase_len > 0 {
            seq![DrawView::PhasePosition(self.phase_len)]
        } else {
            Seq::empty()
        }) + seq![DrawView::OverallPosition((self.base + self.weight) as u64)] + self.with_phase_done().render_spec(
            elapsed,
        )
    }

    /// The display with the last phase recorded.
    pub open spec fn ended(self, in_phase: u64) -> ProgressView {
        ProgressView {
            phase_times: self.phase_times.push(PhaseTime { phase: self.phase_idx, nanos: in_phase }),
            ..self
        }
    }
}

impl IndexProgress {
    /// Begins the phase `idx`. `elapsed` is the time since the phase before it began.
    pub fn phase(&mut self, idx: usize, elapsed: u64) -> (r: Vec<Draw>)
        requires
            old(self)@.wf(),
            idx < PHASE_COUNT,
        ensures
            final(self)@.wf(),
            final(self)@ == old(self)@.begun(idx, elapsed),
            draws(r@) == final(self)@.begin_draws(),
    {
        if idx > 0 && self.phase_times.len() < idx {
            self.phase_times.push(PhaseTime { phase: self.phase_idx, nanos: elapsed });
        }
        let mut base: u64 = 0;
        let mut i: usize = 0;
        while i < idx
            invariant
                i <= idx < PHASE_COUNT,
                base == weight_before(i as nat),
            decreases idx - i,
        {
            proof {
                lemma_weights(i as nat);
            }
            base = base + phase_at(i).weight;
            i = i + 1;
        }
        self.phase_idx = idx;
        self.base = base;
        self.weight = phase_at(idx).weight;
        self.phase_len = 0;
        self.phase_pos = 0;
        let mut out: Vec<Draw> = Vec::new();
        out.push(Draw::FileMessage(String::new()));
        out.push(Draw::PhaseStyle(PhaseStyle::Message));
        let ghost head = draws(out@);
        let mut rest = self.render(0);
        let ghost tail = draws(rest@);
        out.append(&mut rest);
        assert(draws(out@) =~= head + tail);
        assert(head =~= seq![
            DrawView::FileMessage(Seq::empty()),
            DrawView::PhaseStyle(PhaseStyle::Message),
        ]);
        out
    }

    /// Sets the item count of the current phase.
    pub fn set_len(&mut self, len: u64, elapsed: u64) -> (r: Vec<Draw>)
        requires
            old(self)@.wf(),
        ensures
            final(self)@.wf(),
            final(self)@ == old(self)@.with_len(len),
            draws(r@) == bar_setup(len > 0, len) + final(self)@.render_spec(elapsed as nat),
    {
        self.phase_len = len;
        let mut out: Vec<Draw> = Vec::new();
        if len > 0 {
            self.bar_len = len;
            out.push(Draw::PhaseLength(len));
            out.push(Draw::PhaseStyle(PhaseStyle::Bar));
        }
        let ghost head = draws(out@);
        let mut rest = self.render(elapsed);
        let ghost tail = draws(rest@);
        out.append(&mut rest);
        assert(head =~= bar_setup(len > 0, len));
        assert(draws(out@) =~= head + tail);
        out
    }

    /// Reports progress within the phase directly. The bar appears with the first known total.
    pub fn set_items(&mut self, pos: u64, total: u64, elapsed: u64) -> (r: Vec<Draw>)
        requires
            old(self)@.wf(),
        ensures
            final(self)@.wf(),
            final(self)@ == old(self)@.with_items(pos, total),
            draws(r@) == bar_setup(total > 0 && old(self).bar_len == 0, total) + final(self)@.render_spec(
                elapsed as nat,
            ),
    {
        self.phase_len = total;
        self.phase_pos = if pos <= total { pos } else { total };
        let mut out: Vec<Draw> = Vec::new();
        let ghost fresh = total > 0 && self.bar_len == 0;
        if total > 0 && self.bar_len == 0 {
            self.bar_len = total;
            out.push(Draw::PhaseLength(total));
            out.push(Draw::PhaseStyle(PhaseStyle::Bar));
        }
        let ghost head = draws(out@);
        let mut rest = self.render(elapsed);
        let ghost tail = draws(rest@);
        out.append(&mut rest);
        assert(head =~= bar_setup(fresh, total));
        assert(draws(out@) =~= head + tail);
        out
    }

    /// Feedback while the total is unknown: how many files were found so far.
    pub fn set_walking_count(&self, count: u64, elapsed: u64) -> (r: Vec<Draw>)
        ensures
            draws(r@) == walking_draws(count as nat, elapsed as nat),
    {
        let mut msg = "scan · ".to_owned();
        let figure = fmt_exact(count);
        msg.append(figure.as_str());
        msg.append(" files found");
        let ghost start = msg@;
        if elapsed > 100_000_000 && count > 0 {
            msg.append(" · ");
            let figure = fmt_short(rate(count, elapsed));
            msg.append(figure.as_str());
            msg.append("/s");
        }
        assert(msg@ =~= start + walking_rate_part(count as nat, elapsed as nat));
        let mut out: Vec<Draw> = Vec::new();
        out.push(Draw::PhaseMessage(msg));
        assert(draws(out@) =~= walking_draws(count as nat, elapsed as nat));
        out
    }

    /// Feedback of file discovery: progress where the total is known, the count found so far where
    /// it is not.
    pub fn on_discovery(&mut self, done: u64, total: Option<u64>, elapsed: u64) -> (r: Vec<Draw>)
        requires
            old(self)@.wf(),
        ensures
            final(self)@.wf(),
            final(self)@ == match total {
                Some(total) => old(self)@.with_items(done, total),
                None => old(self)@,
            },
            draws(r@) == old(self)@.discovery_draws(done, total, elapsed as nat),
    {
        match total {
            Some(t) => self.set_items(done, t, elapsed),
            None => self.set_walking_count(done, elapsed),
        }
    }

    /// Shows the file in work.
    pub fn set_current_file(&self, path: &str) -> (r: Vec<Draw>)
        requires
            can_cut(path@),
        ensures
            draws(r@) == seq![DrawView::FileMessage(shown_path(path@))],
    {
        let len = path.as_bytes().len();
        let shown = if len > CURRENT_FILE_MAX {
            let tail = path.split_at(len - CURRENT_FILE_MAX).1;
            proof {
                encode_utf8_decode_utf8(tail@);
            }
            let mut out = "…".to_owned();
            out.append(tail);
            out
        } else {
            path.to_owned()
        };
        assert(shown@ =~= shown_path(path@));
        let mut out: Vec<Draw> = Vec::new();
        out.push(Draw::FileMessage(shown));
        assert(draws(out@) =~= seq![DrawView::FileMessage(shown@)]);
        out
    }

    /// Counts what a Unity YAML file held.
    pub fn stat_yaml(&mut self, objects: u64, refs: u64, bytes: u64, elapsed: u64) -> (r: Vec<Draw>)
        requires
            old(self)@.wf(),
            old(self).stats.yaml_objects + objects <= u64::MAX,
            old(self).stats.yaml_refs + refs <= u64::MAX,
            old(self).stats.bytes_read + bytes <= u64::MAX,
        ensures
            final(self)@.wf(),
            final(self)@ == old(self)@.with_yaml(objects, refs, bytes),
            draws(r@) == final(self)@.render_spec(elapsed as nat),
    {
        self.stats.yaml_objects = self.stats.yaml_objects + objects;
        self.stats.yaml_refs = self.stats.yaml_refs + refs;
        self.stats.bytes_read = self.stats.bytes_read + bytes;
        self.render(elapsed)
    }

    /// Counts what a C# file held.
    pub fn stat_cs(&mut self, decls: u64, mentions: u64, bytes: u64, elapsed: u64) -> (r: Vec<Draw>)
        requires
            old(self)@.wf(),
            old(self).stats.cs_decls + decls <= u64::MAX,
            old(self).stats.cs_mentions + mentions <= u64::MAX,
            old(self).stats.bytes_read + bytes <= u64::MAX,
        ensures
            final(self)@.wf(),
            final(self)@ == old(self)@.with_cs(decls, mentions, bytes),
            draws(r@) == final(self)@.render_spec(elapsed as nat),
    {
        self.stats.cs_decls = self.stats.cs_decls + decls;
        self.stats.cs_mentions = self.stats.cs_mentions + mentions;
        self.stats.bytes_read = self.stats.bytes_read + bytes;
        self.render(elapsed)
    }

    /// Counts entities.
    pub fn stat_entities(&mut self, n: u64, elapsed: u64) -> (r: Vec<Draw>)
        requires
            old(self)@.wf(),
            old(self).stats.entities + n <= u64::MAX,
        ensures
            final(self)@.wf(),
            final(self)@ == old(self)@.with_entities(n),
            draws(r@) == final(self)@.render_spec(elapsed as nat),
    {
        self.stats.entities = self.stats.entities + n;
        self.render(elapsed)
    }

    /// One more item is done.
    pub fn inc(&mut self, elapsed: u64) -> (r: Vec<Draw>)
        requires
            old(self)@.wf(),
        ensures
            final(self)@.wf(),
            final(self)@ == old(self)@.with_item_done(),
            draws(r@) == final(self)@.render_spec(elapsed as nat),
    {
        if self.phase_len > 0 {
            self.phase_pos = if self.phase_pos < self.phase_len { self.phase_pos + 1 } else { self.phase_len };
        }
        self.render(elapsed)
    }

    /// All items of the phase are done.
    pub fn finish_phase(&mut self, elapsed: u64) -> (r: Vec<Draw>)
        requires
            old(self)@.wf(),
        ensures
            final(self)@.wf(),
            final(self)@ == old(self)@.with_phase_done(),
            draws(r@) == old(self)@.done_draws(elapsed as nat),
    {
        proof {
            lemma_weights(self.phase_idx as nat);
        }
        self.phase_pos = self.phase_len;
        let mut out: Vec<Draw> = Vec::new();
        if self.phase_len > 0 {
            out.push(Draw::PhasePosition(self.phase_len));
        }
        out.push(Draw::OverallPosition(self.base + self.weight));
        let ghost head = draws(out@);
        let mut rest = self.render(elapsed);
        let ghost tail = draws(rest@);
        out.append(&mut rest);
        assert(head =~= (if self.phase_len > 0 {
            seq![DrawView::PhasePosition(self.phase_len)]
        } else {
            Seq::empty()
        }) + seq![DrawView::OverallPosition((self.base + self.weight) as u64)]);
        assert(draws(out@) =~= head + tail);
        out
    }
}

/// The longest time in a list.
pub open spec fn longest(times: Seq<PhaseTime>) -> nat
    decreases times.len(),
{
    if times.len() == 0 {
        0
    } else {
        let before = longest(times.drop_last());
        if before < times.last().nanos {
            times.last().nanos as nat
        } else {
            before
        }
    }
}

/// The cells of the bar of a phase in the breakdown: 24 for the longest phase.
pub open spec fn bar_cells(nanos: nat, longest: nat) -> nat {
    if longest > 0 {
        round(product(quotient(seconds(nanos), seconds(longest)), of_int(24)))
    } else {
        0
    }
}

/// A span of time in seconds with one decimal place.
pub open spec fn seconds_text(nanos: nat) -> Seq<char> {
    one_place(decimal_digits(seconds(nanos), 10))
}

/// `n` spaces.
pub open spec fn spaces(n: int) -> Seq<char> {
    Seq::new(if n > 0 { n as nat } else { 0 }, |i: int| ' ')
}

/// The line of a phase in the breakdown: name, time and bar in columns.
pub open spec fn breakdown_line(time: PhaseTime, longest: nat) -> Seq<char> {
    let name = phase_short(time.phase as int);
    let figure = seconds_text(time.nanos as nat);
    "    "@ + name + spaces(10 - name.len()) + " "@ + spaces(6 - figure.len()) + figure + "s  "@ + Seq::new(
        bar_cells(time.nanos as nat, longest),
        |i: int| '█',
    )
}

/// The breakdown of a build by phases.
pub open spec fn breakdown(times: Seq<PhaseTime>) -> Seq<Seq<char>> {
    seq![Seq::<char>::empty(), "  phase breakdown:"@] + Seq::new(
        times.len(),
        |i: int| breakdown_line(times[i], longest(times)),
    )
}

proof fn lemma_longest(times: Seq<PhaseTime>)
    ensures
        forall|i: int| 0 <= i < times.len() ==> (#[trigger] times[i]).nanos <= longest(times),
        longest(times) <= u64::MAX,
        longest(times) > 0 ==> exists|i: int| 0 <= i < times.len() && (#[trigger] times[i]).nanos == longest(times),
    decreases times.len(),
{
    if times.len() > 0 {
        let rest = times.drop_last();
        lemma_longest(rest);
        assert forall|i: int| 0 <= i < times.len() implies (#[trigger] times[i]).nanos <= longest(times) by {
            if i < rest.len() {
                assert(rest[i] == times[i]);
            }
        }
        if longest(times) > 0 {
            if longest(rest) < times.last().nanos {
                assert(times[times.len() - 1].nanos == longest(times));
            } else {
                let j = choose|j: int| 0 <= j < rest.len() && (#[trigger] rest[j]).nanos == longest(rest);
                assert(times[j].nanos == longest(times));
            }
        }
    }
}

/// In the breakdown no bar has more than 24 cells, and that of the longest phase has exactly 24.
pub proof fn law_bar_cells(nanos: nat, longest: nat)
    requires
        nanos <= longest <= u64::MAX,
    ensures
        bar_cells(nanos, longest) <= 24,
        longest > 0 ==> bar_cells(longest, longest) == 24,
{
    if longest > 0 {
        lemma2_to64_rest();
        let y = seconds(longest);
        let one = Binary { mant: pow2(52), exp: -52 };
        law_seconds_positive(longest);
        law_seconds_monotone(nanos, longest);
        law_quotient_monotone(seconds(nanos), y, y);
        law_quotient_by_itself(y);
        let q = quotient(seconds(nanos), y);
        let w = of_int(24);
        assert(q.mant * w.mant == w.mant * q.mant) by (nonlinear_arith);
        assert(one.mant * w.mant == w.mant * one.mant) by (nonlinear_arith);
        law_product_monotone(w, q, one);
        law_round_monotone(product(w, q), product(w, one));
        law_product_with_one(24);
    }
}

impl IndexProgress {
    /// Ends the display after `elapsed` nanoseconds in all and `in_phase` in the last phase:
    /// returns the bar operations and the lines of the breakdown to print.
    pub fn finish(&mut self, elapsed: u64, in_phase: u64) -> (r: (Vec<Draw>, Vec<String>))
        requires
            old(self)@.wf(),
        ensures
            final(self)@.wf(),
            final(self)@ == old(self)@.ended(in_phase),
            draws(r.0@) == seq![
                DrawView::FileDone,
                DrawView::PhaseDone,
                DrawView::OverallDone("done in "@ + seconds_text(elapsed as nat) + "s"@),
            ],
            texts(r.1@) == breakdown(final(self).phase_times@),
    {
        self.phase_times.push(PhaseTime { phase: self.phase_idx, nanos: in_phase });
        let mut msg = "done in ".to_owned();
        let figure = fmt_seconds(elapsed);
        msg.append(figure.as_str());
        msg.append("s");
        let mut out: Vec<Draw> = Vec::new();
        out.push(Draw::FileDone);
        out.push(Draw::PhaseDone);
        out.push(Draw::OverallDone(msg));
        assert(draws(out@) =~= seq![DrawView::FileDone, DrawView::PhaseDone, DrawView::OverallDone(msg@)]);
        let lines = breakdown_lines(&self.phase_times);
        (out, lines)
    }
}

/// A span of time in seconds with one decimal place.
fn fmt_seconds(nanos: u64) -> (r: String)
    ensures
        r@ == seconds_text(nanos as nat),
{
    decimal_one_place(Double::seconds(nanos).to_digits(10))
}

/// Appends `n` times the character `c`.
fn append_repeated(s: &mut String, c: char, n: usize)
    ensures
        final(s)@ == old(s)@ + Seq::new(n as nat, |i: int| c),
{
    let mut i: usize = 0;
    while i < n
        invariant
            i <= n,
            s@ == old(s)@ + Seq::new(i as nat, |j: int| c),
        decreases n - i,
    {
        s.push(c);
        i = i + 1;
        assert(s@ =~= old(s)@ + Seq::new(i as nat, |j: int| c));
    }
    assert(s@ =~= old(s)@ + Seq::new(n as nat, |j: int| c));
}

/// Appends the spaces that fill up a text of `len` characters to `width`.
fn append_padding(s: &mut String, width: usize, len: usize)
    ensures
        final(s)@ == old(s)@ + spaces(width - len),
{
    let n: usize = if len < width { width - len } else { 0 };
    append_repeated(s, ' ', n);
    assert(Seq::new(n as nat, |i: int| ' ') =~= spaces(width - len));
}

/// The line of a phase in the breakdown.
fn fmt_breakdown_line(time: PhaseTime, max: u64) -> (line: String)
    requires
        time.phase < PHASE_COUNT,
        time.nanos <= max,
    ensures
        line@ == breakdown_line(time, max as nat),
{
    let name = phase_at(time.phase).short;
    let figure = fmt_seconds(time.nanos);
    let cells: u64 = if max > 0 {
        proof {
            law_bar_cells(time.nanos as nat, max as nat);
        }
        let share = Double::seconds(time.nanos).divide(Double::seconds(max));
        share.multiply(Double::of_u64(24)).round_to_u64()
    } else {
        0
    };
    let mut line = "    ".to_owned();
    line.append(name);
    append_padding(&mut line, 10, name.unicode_len());
    line.append(" ");
    append_padding(&mut line, 6, figure.as_str().unicode_len());
    line.append(figure.as_str());
    line.append("s  ");
    append_repeated(&mut line, '█', cells as usize);
    line
}

/// The breakdown of a build by phases.
fn breakdown_lines(times: &Vec<PhaseTime>) -> (r: Vec<String>)
    requires
        forall|i: int| 0 <= i < times@.len() ==> (#[trigger] times@[i]).phase < PHASE_COUNT,
    ensures
        texts(r@) == breakdown(times@),
{
    let mut max: u64 = 0;
    let mut i: usize = 0;
    while i < times.len()
        invariant
            i <= times@.len(),
            max == longest(times@.take(i as int)),
        decreases times@.len() - i,
    {
        assert(times@.take(i + 1).drop_last() =~= times@.take(i as int));
        if max < times[i].nanos {
            max = times[i].nanos;
        }
        i = i + 1;
    }
    assert(times@.take(i as int) =~= times@);
    proof {
        lemma_longest(times@);
    }
    let mut lines: Vec<String> = Vec::new();
    lines.push(String::new());
    lines.push("  phase breakdown:".to_owned());
    let ghost head = seq![Seq::<char>::empty(), "  phase breakdown:"@];
    assert(texts(lines@) =~= head);
    let mut i: usize = 0;
    while i < times.len()
        invariant
            i <= times@.len(),
            max == longest(times@),
            forall|j: int| 0 <= j < times@.len() ==> (#[trigger] times@[j]).nanos <= max,
            forall|j: int| 0 <= j < times@.len() ==> (#[trigger] times@[j]).phase < PHASE_COUNT,
            head.len() == 2,
            texts(lines@) == head + Seq::new(i as nat, |j: int| breakdown_line(times@[j], longest(times@))),
        decreases times@.len() - i,
    {
        let ghost before = texts(lines@);
        lines.push(fmt_breakdown_line(times[i], max));
        assert(texts(lines@) =~= before.push(breakdown_line(times@[i as int], longest(times@))));
        i = i + 1;
        assert(texts(lines@) =~= head + Seq::new(i as nat, |j: int| breakdown_line(times@[j], longest(times@))));
    }
    lines
}

/// The closing line of a build.
pub open spec fn summary_text(
    elapsed: nat,
    index: Seq<char>,
    files: nat,
    assets: nat,
    bound: nat,
) -> Seq<char> {
    let throughput = if elapsed > 0 {
        decimal_digits(quotient(of_int(files), seconds(elapsed)), 1)
    } else {
        0
    };
    "✅ Index built in "@ + seconds_text(elapsed) + "s: "@ + index + " ("@ + grouped(files) + " files, "@ + grouped(
        assets,
    ) + " assets, "@ + grouped(bound) + " scripts bound, "@ + grouped(throughput) + " files/s)"@
}

/// The closing line of a build of `files` files and `assets` assets, with `bound` scripts bound.
pub fn build_summary(elapsed: u64, index: &str, files: u64, assets: u64, bound: u64) -> (r: String)
    ensures
        r@ == summary_text(elapsed as nat, index@, files as nat, assets as nat, bound as nat),
{
    let throughput: u128 = if elapsed > 0 {
        Double::of_u64(files).divide(Double::seconds(elapsed)).to_digits(1)
    } else {
        0
    };
    let mut line = "✅ Index built in ".to_owned();
    let figure = fmt_seconds(elapsed);
    line.append(figure.as_str());
    line.append("s: ");
    line.append(index);
    line.append(" (");
    let figure = fmt_exact(files);
    line.append(figure.as_str());
    line.append(" files, ");
    let figure = fmt_exact(assets);
    line.append(figure.as_str());
    line.append(" assets, ");
    let figure = fmt_exact(bound);
    line.append(figure.as_str());
    line.append(" scripts bound, ");
    let figure = fmt_grouped(throughput);
    line.append(figure.as_str());
    line.append(" files/s)");
    line
}

/// Turns the phase bar into a bar of the given length, where `on` holds.
pub open spec fn bar_setup(on: bool, len: u64) -> Seq<DrawView> {
    if on {
        seq![DrawView::PhaseLength(len), DrawView::PhaseStyle(PhaseStyle::Bar)]
    } else {
        Seq::empty()
    }
}

/// The figure of a rate.
fn fmt_rate(per_second: u64) -> (r: String)
    ensures
        r@ == rate_figure(per_second as nat),
{
    if per_second < 10_000 {
        fmt_exact(per_second)
    } else {
        fmt_short(per_second)
    }
}

/// Appends the rate to a phase message.
fn append_rate(msg: &mut String, count: u64, elapsed: u64)
    ensures
        final(msg)@ == old(msg)@ + rate_part(count as nat, elapsed as nat),
{
    if elapsed > 100_000_000 && count > 0 {
        msg.append(" · ");
        let figure = fmt_rate(rate(count, elapsed));
        msg.append(figure.as_str());
        msg.append("/s");
    }
    assert(msg@ =~= old(msg)@ + rate_part(count as nat, elapsed as nat));
}

/// Appends a counter to a phase message.
fn append_counter(msg: &mut String, count: u64, unit: &str)
    ensures
        final(msg)@ == old(msg)@ + counter_part(count as nat, unit@),
{
    if count > 0 {
        msg.append(" · ");
        let figure = fmt_short(count);
        msg.append(figure.as_str());
        msg.append(unit);
    }
    assert(msg@ =~= old(msg)@ + counter_part(count as nat, unit@));
}

/// Base and weight of a phase stay within the total.
pub proof fn lemma_weights(idx: nat)
    requires
        idx < PHASE_COUNT,
    ensures
        weight_before(idx) + phase_weight(idx as int) <= TOTAL_WEIGHT,
{
    reveal_with_fuel(weight_before, 9);
}

/// The weights of all phases add up to the total.
pub proof fn law_weights_add_up()
    ensures
        weight_before(PHASE_COUNT as nat) == TOTAL_WEIGHT,
{
    reveal_with_fuel(weight_before, 9);
}

/// The overall bar stays within the share of the current phase, and within the total.
pub proof fn law_position_within_phase(p: ProgressView)
    requires
        p.wf(),
    ensures
        p.base <= p.overall_position() <= p.base + p.weight <= TOTAL_WEIGHT,
{
    lemma_weights(p.phase_idx as nat);
}

/// Within a phase the overall bar never goes back while items get done.
pub proof fn law_position_never_goes_back(before: ProgressView, after: ProgressView)
    requires
        before.wf(),
        after.wf(),
        before.phase_idx == after.phase_idx,
        before.weight == after.weight,
        before.phase_len == after.phase_len,
        before.phase_pos <= after.phase_pos,
    ensures
        before.overall_position() <= after.overall_position(),
{
    if before.phase_len > 0 {
        let d = of_int(before.phase_len as nat);
        lemma_positive(before.phase_len as nat);
        law_of_int_monotone(before.phase_pos as nat, after.phase_pos as nat);
        law_quotient_monotone(of_int(before.phase_pos as nat), of_int(after.phase_pos as nat), d);
        let w = of_int(before.weight as nat);
        let x = ratio(before.phase_pos as nat, before.phase_len as nat);
        let y = ratio(after.phase_pos as nat, after.phase_len as nat);
        law_product_monotone(w, x, y);
        law_round_monotone(product(w, x), product(w, y));
    }
}

/// From phase to phase the overall bar never goes back either.
pub proof fn law_position_advances_by_phase(before: ProgressView, after: ProgressView)
    requires
        before.wf(),
        after.wf(),
        before.phase_idx < after.phase_idx,
    ensures
        before.overall_position() <= after.overall_position(),
{
    lemma_weight_before_mono((before.phase_idx + 1) as nat, after.phase_idx as nat);
}

/// A phase whose items are all done has moved the overall bar by its whole weight.
pub proof fn law_finished_phase_counts_in_full(p: ProgressView)
    requires
        p.wf(),
        p.phase_len > 0,
        p.phase_pos == p.phase_len,
    ensures
        p.overall_position() == p.base + p.weight,
{
    lemma2_to64_rest();
    lemma_weights(p.phase_idx as nat);
    lemma_positive(p.phase_len as nat);
    law_quotient_by_itself(of_int(p.phase_len as nat));
    law_product_with_one(p.weight as nat);
}

proof fn lemma_positive(n: nat)
    requires
        n > 0,
    ensures
        of_int(n).mant > 0,
{
    lemma2_to64_rest();
    let k = lemma_nearest_scale(n, 1);
}

proof fn lemma_weight_before_mono(i: nat, j: nat)
    requires
        i <= j,
    ensures
        weight_before(i) <= weight_before(j),
    decreases j,
{
    if i < j {
        lemma_weight_before_mono(i, (j - 1) as nat);
    }
}

} // verus!
