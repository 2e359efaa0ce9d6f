//! The course of an index build.
//!
//! A [`Build`] decides what is done next. Its caller performs the [`Step`], which reads files or
//! writes rows, and reports what came of it as an [`Event`]. All rows of a build are written in one
//! transaction, into a draft of the index. The last step switches the committed draft into place: a
//! build that fails on the way leaves the index as it was.
use crate::command::texts;
use crate::files::{belongs, law_members, members, select, DiscoveredFile, Group};
use crate::lookup::positions;
use crate::progress::{
    bar_setup, breakdown, build_summary, can_cut, draws, phase_weight, seconds_text, shown_path, summary_text, Draw,
    DrawView, IndexProgress, ProgressView,
};
use vstd::prelude::*;

verus! {

/// The steps of a build.
#[derive(Clone, Copy, PartialEq, Eq, Structural, Debug)]
pub enum Step {
    /// Find the files of the project.
    Scan,
    /// Open the draft, create its tables, begin the transaction and store the project.
    Open,
    /// Store a file.
    Register(usize),
    /// Load the ids of the stored files.
    LoadIds,
    /// Read a Unity YAML file and extract what it holds.
    ReadYaml(usize),
    /// Store what a Unity YAML file holds.
    StoreYaml(usize),
    /// Read a C# file and extract what it holds.
    ReadCSharp(usize),
    /// Store what a C# file holds.
    StoreCSharp(usize),
    /// Store the asset of a file.
    AddAsset(usize),
    /// Load the stored assets.
    LoadAssets,
    /// Find the entities of an asset.
    Resolve(usize),
    /// Store the entities of an asset.
    StoreEntities(usize),
    /// Store the symbols of the declarations.
    BuildSymbols,
    /// Bind components to the symbols of their scripts.
    BindScripts,
    /// Store the virtual file system.
    Materialize,
    /// Store the summary of the build.
    Publish,
    /// Commit the transaction.
    Commit,
    /// Switch the draft into place.
    Switch,
    /// The build has succeeded.
    Finished,
    /// The build has failed.
    Failed,
}

/// What a step writes to.
#[derive(Clone, Copy, PartialEq, Eq, Structural, Debug)]
pub enum Target {
    Nothing,
    /// The draft of the index.
    Draft,
    /// The index itself.
    Index,
}

/// What a step writes to.
pub open spec fn target_of(step: Step) -> Target {
    match step {
        Step::Open | Step::Register(_) | Step::StoreYaml(_) | Step::StoreCSharp(_) | Step::AddAsset(_)
        | Step::StoreEntities(_) | Step::BuildSymbols | Step::BindScripts | Step::Materialize | Step::Publish
        | Step::Commit => Target::Draft,
        Step::Switch => Target::Index,
        _ => Target::Nothing,
    }
}

impl Step {
    /// What the step writes to.
    pub fn target(&self) -> (r: Target)
        ensures
            r == target_of(*self),
    {
        match self {
            Step::Open | Step::Register(_) | Step::StoreYaml(_) | Step::StoreCSharp(_) | Step::AddAsset(_)
            | Step::StoreEntities(_) | Step::BuildSymbols | Step::BindScripts | Step::Materialize | Step::Publish
            | Step::Commit => Target::Draft,
            Step::Switch => Target::Index,
            _ => Target::Nothing,
        }
    }
}

/// What came of a step.
pub enum Event {
    /// The files of the project, in the order of discovery.
    Discovered(Vec<DiscoveredFile>),
    /// A Unity YAML file of `bytes` bytes holds this many objects and references.
    Yaml { objects: u64, references: u64, bytes: u64 },
    /// A C# file of `bytes` bytes holds this many declarations and mentions.
    CSharp { declarations: u64, mentions: u64, bytes: u64 },
    /// A file could not be read, or nothing could be extracted from it.
    Skipped,
    /// The root paths of the stored assets.
    Assets(Vec<String>),
    /// An asset has this many entities.
    Entities(u64),
    /// This many scripts were bound.
    Bound(u64),
    /// Anything else was done.
    Done,
    /// The step failed.
    Failed,
}

/// The state of a build.
pub struct Build {
    pub step: Step,
    pub progress: IndexProgress,
    /// The files of the project.
    pub files: Vec<DiscoveredFile>,
    /// The positions of the Unity YAML files.
    pub yaml: Vec<usize>,
    /// The positions of the C# files.
    pub csharp: Vec<usize>,
    /// The positions of the files that are assets.
    pub assets: Vec<usize>,
    /// The root paths of the stored assets.
    pub roots: Vec<String>,
    /// The number of scripts bound.
    pub bound: u64,
}

/// What a [`Build`] holds.
pub struct BuildView {
    pub step: Step,
    pub progress: ProgressView,
    pub files: Seq<DiscoveredFile>,
    pub roots: Seq<Seq<char>>,
    pub bound: u64,
}

/// A new state and the bar operations on the way to it.
pub struct Change {
    pub to: BuildView,
    pub draws: Seq<DrawView>,
}

impl View for Build {
    type V = BuildView;

    open spec fn view(&self) -> BuildView {
        BuildView {
            step: self.step,
            progress: self.progress@,
            files: self.files@,
            roots: texts(self.roots@),
            bound: self.bound,
        }
    }
}

/// Whether the paths of the files that are read can be shown.
pub open spec fn can_show(files: Seq<DiscoveredFile>) -> bool {
    forall|i: int|
        0 <= i < files.len() && (belongs(#[trigger] files[i], Group::UnityYaml) || belongs(files[i], Group::CSharp))
            ==> can_cut(files[i].project_rel_path@)
}

/// Whether all root paths can be shown.
pub open spec fn can_show_roots(roots: Seq<Seq<char>>) -> bool {
    forall|i: int| 0 <= i < roots.len() ==> can_cut(#[trigger] roots[i])
}

impl Change {
    /// Makes another change after this one.
    pub open spec fn after(self, next: Change) -> Change {
        Change { to: next.to, draws: self.draws + next.draws }
    }
}

impl BuildView {
    /// The positions of the files of a group.
    pub open spec fn group(self, group: Group) -> Seq<int> {
        members(self.files, group)
    }

    /// The build at a step.
    pub open spec fn at(self, step: Step) -> BuildView {
        BuildView { step, ..self }
    }

    /// The display changes.
    pub open spec fn shows(self, progress: ProgressView, draws: Seq<DrawView>) -> Change {
        Change { to: BuildView { progress, ..self }, draws }
    }

    /// Nothing but the step changes.
    pub open spec fn goes(self, step: Step) -> Change {
        Change { to: self.at(step), draws: Seq::empty() }
    }

    /// The current phase ends.
    pub open spec fn ends_phase(self, elapsed: u64) -> Change {
        self.shows(self.progress.with_phase_done(), self.progress.done_draws(elapsed as nat))
    }

    /// The current phase ends and another begins.
    #[verifier::opaque]
    pub open spec fn begins(self, idx: usize, elapsed: u64) -> Change {
        let ended = self.ends_phase(elapsed);
        let progress = ended.to.progress.begun(idx, elapsed);
        ended.after(self.shows(progress, progress.begin_draws()))
    }

    /// The item count of the phase becomes known.
    pub open spec fn counts(self, len: nat, elapsed: u64) -> Change {
        let progress = self.progress.with_len(len as u64);
        self.shows(progress, bar_setup(len > 0, len as u64) + progress.render_spec(elapsed as nat))
    }

    /// One more item is done.
    pub open spec fn item_done(self, elapsed: u64) -> Change {
        let progress = self.progress.with_item_done();
        self.shows(progress, progress.render_spec(elapsed as nat))
    }

    /// The display counts what was found.
    pub open spec fn shows_stats(self, progress: ProgressView, elapsed: u64) -> Change {
        self.shows(progress, progress.render_spec(elapsed as nat))
    }

    /// On to the file at `i`, or to the ids.
    #[verifier::opaque]
    pub open spec fn to_register(self, i: int) -> Change {
        if i < self.files.len() {
            self.goes(Step::Register(i as usize))
        } else {
            self.goes(Step::LoadIds)
        }
    }

    /// The path of a file of a group is shown.
    pub open spec fn shows_file(self, group: Group, i: int) -> Seq<DrawView> {
        seq![DrawView::FileMessage(shown_path(self.files[self.group(group)[i]].project_rel_path@))]
    }

    /// On to the Unity YAML file at `i`, or to the C# files.
    #[verifier::opaque]
    pub open spec fn to_yaml(self, i: int, elapsed: u64) -> Change {
        if i < self.group(Group::UnityYaml).len() {
            Change { to: self.at(Step::ReadYaml(i as usize)), draws: self.shows_file(Group::UnityYaml, i) }
        } else {
            self.to_csharp(0, elapsed)
        }
    }

    /// On to the C# file at `i`, or to the assets.
    #[verifier::opaque]
    pub open spec fn to_csharp(self, i: int, elapsed: u64) -> Change {
        if i < self.group(Group::CSharp).len() {
            Change { to: self.at(Step::ReadCSharp(i as usize)), draws: self.shows_file(Group::CSharp, i) }
        } else {
            let begun = self.begins(3, elapsed);
            let counted = begun.after(begun.to.counts(self.group(Group::Assets).len(), 0));
            counted.after(counted.to.to_asset(0, 0))
        }
    }

    /// On to the asset at `i`, or to the entity graph.
    #[verifier::opaque]
    pub open spec fn to_asset(self, i: int, elapsed: u64) -> Change {
        if i < self.group(Group::Assets).len() {
            self.goes(Step::AddAsset(i as usize))
        } else {
            let begun = self.begins(4, elapsed);
            begun.after(begun.to.goes(Step::LoadAssets))
        }
    }

    /// On to the entities of the asset at `i`, or to the symbols.
    #[verifier::opaque]
    pub open spec fn to_resolve(self, i: int, elapsed: u64) -> Change {
        if i < self.roots.len() {
            Change {
                to: self.at(Step::Resolve(i as usize)),
                draws: seq![DrawView::FileMessage(shown_path(self.roots[i]))],
            }
        } else {
            let begun = self.begins(5, elapsed);
            begun.after(begun.to.goes(Step::BuildSymbols))
        }
    }

    /// Whether an event can come of the current step.
    pub open spec fn fits(self, event: Event) -> bool {
        let stats = self.progress.stats;
        match (self.step, event) {
            (Step::Finished, _) => false,
            (Step::Failed, _) => false,
            (_, Event::Failed) => true,
            (Step::Scan, Event::Discovered(files)) => 2 * files@.len() <= usize::MAX && can_show(files@),
            (Step::ReadYaml(_), Event::Yaml { objects, references, bytes }) => {
                &&& stats.yaml_objects + objects <= u64::MAX
                &&& stats.yaml_refs + references <= u64::MAX
                &&& stats.bytes_read + bytes <= u64::MAX
            },
            (Step::ReadYaml(_), Event::Skipped) => true,
            (Step::ReadCSharp(_), Event::CSharp { declarations, mentions, bytes }) => {
                &&& stats.cs_decls + declarations <= u64::MAX
                &&& stats.cs_mentions + mentions <= u64::MAX
                &&& stats.bytes_read + bytes <= u64::MAX
            },
            (Step::ReadCSharp(_), Event::Skipped) => true,
            (Step::LoadAssets, Event::Assets(roots)) => roots@.len() <= usize::MAX && can_show_roots(texts(roots@)),
            (Step::Resolve(_), Event::Entities(n)) => stats.entities + n <= u64::MAX,
            (Step::BindScripts, Event::Bound(_)) => true,
            (Step::Open, Event::Done) => true,
            (Step::Register(_), Event::Done) => true,
            (Step::LoadIds, Event::Done) => true,
            (Step::StoreYaml(_), Event::Done) => true,
            (Step::StoreCSharp(_), Event::Done) => true,
            (Step::AddAsset(_), Event::Done) => true,
            (Step::StoreEntities(_), Event::Done) => true,
            (Step::BuildSymbols, Event::Done) => true,
            (Step::Materialize, Event::Done) => true,
            (Step::Publish, Event::Done) => true,
            (Step::Commit, Event::Done) => true,
            (Step::Switch, Event::Done) => true,
            _ => false,
        }
    }

    /// The files are known.
    pub open spec fn after_scan(self, files: Seq<DiscoveredFile>, elapsed: u64) -> Change {
        let begun = (BuildView { files, ..self }).begins(1, elapsed);
        begun.after(begun.to.goes(Step::Open))
    }

    /// What a file holds is known.
    pub open spec fn after_reading(self, progress: ProgressView, elapsed: u64) -> Change {
        let shown = self.shows_stats(progress, elapsed);
        match self.step {
            Step::ReadYaml(i) => shown.after(shown.to.goes(Step::StoreYaml(i))),
            Step::ReadCSharp(i) => shown.after(shown.to.goes(Step::StoreCSharp(i))),
            Step::Resolve(i) => shown.after(shown.to.goes(Step::StoreEntities(i))),
            _ => self.goes(Step::Failed),
        }
    }

    /// A file holds nothing.
    pub open spec fn after_skipping(self, elapsed: u64) -> Change {
        let done = self.item_done(elapsed);
        match self.step {
            Step::ReadYaml(i) => done.after(done.to.to_yaml(i + 1, elapsed)),
            Step::ReadCSharp(i) => done.after(done.to.to_csharp(i + 1, elapsed)),
            _ => self.goes(Step::Failed),
        }
    }

    /// The stored assets are known.
    pub open spec fn after_loading(self, roots: Seq<Seq<char>>, elapsed: u64) -> Change {
        let counted = (BuildView { roots, ..self }).counts(roots.len(), elapsed);
        counted.after(counted.to.to_resolve(0, elapsed))
    }

    /// Scripts are bound.
    pub open spec fn after_binding(self, bound: u64, elapsed: u64) -> Change {
        let begun = (BuildView { bound, ..self }).begins(6, elapsed);
        begun.after(begun.to.goes(Step::Materialize))
    }

    /// The extraction phase begins.
    pub open spec fn to_extraction(self, elapsed: u64) -> Change {
        let begun = self.begins(2, elapsed);
        let count = self.group(Group::UnityYaml).len() + self.group(Group::CSharp).len();
        let counted = begun.after(begun.to.counts(count, 0));
        counted.after(counted.to.to_yaml(0, 0))
    }

    /// A step without a result of its own is done.
    #[verifier::opaque]
    pub open spec fn after_work(self, elapsed: u64) -> Change {
        let done = self.item_done(elapsed);
        match self.step {
            Step::Open => {
                let counted = self.counts(self.files.len(), elapsed);
                counted.after(counted.to.to_register(0))
            },
            Step::Register(i) => done.after(done.to.to_register(i + 1)),
            Step::LoadIds => self.to_extraction(elapsed),
            Step::StoreYaml(i) => done.after(done.to.to_yaml(i + 1, elapsed)),
            Step::StoreCSharp(i) => done.after(done.to.to_csharp(i + 1, elapsed)),
            Step::AddAsset(i) => done.after(done.to.to_asset(i + 1, elapsed)),
            Step::StoreEntities(i) => done.after(done.to.to_resolve(i + 1, elapsed)),
            Step::BuildSymbols => self.goes(Step::BindScripts),
            Step::Materialize => {
                let begun = self.begins(7, elapsed);
                begun.after(begun.to.goes(Step::Publish))
            },
            Step::Publish => self.goes(Step::Commit),
            Step::Commit => self.goes(Step::Switch),
            Step::Switch => {
                let ended = self.ends_phase(elapsed);
                ended.after(ended.to.goes(Step::Finished))
            },
            _ => self.goes(Step::Failed),
        }
    }

    /// What an event changes, `elapsed` nanoseconds after the phase began.
    pub open spec fn next(self, event: Event, elapsed: u64) -> Change {
        match event {
            Event::Discovered(files) => self.after_scan(files@, elapsed),
            Event::Yaml { objects, references, bytes } => self.after_reading(
                self.progress.with_yaml(objects, references, bytes),
                elapsed,
            ),
            Event::CSharp { declarations, mentions, bytes } => self.after_reading(
                self.progress.with_cs(declarations, mentions, bytes),
                elapsed,
            ),
            Event::Entities(n) => self.after_reading(self.progress.with_entities(n), elapsed),
            Event::Skipped => self.after_skipping(elapsed),
            Event::Assets(roots) => self.after_loading(texts(roots@), elapsed),
            Event::Bound(n) => self.after_binding(n, elapsed),
            Event::Done => self.after_work(elapsed),
            Event::Failed => self.goes(Step::Failed),
        }
    }

    /// Whether the display is in phase `idx`, with `pos` of `len` items done.
    pub open spec fn in_phase(self, idx: int, pos: nat, len: nat) -> bool {
        &&& self.progress.phase_idx == idx
        &&& self.progress.phase_pos == pos
        &&& self.progress.phase_len == len
    }

    /// The display is well-formed, and all paths can be shown.
    pub open spec fn well_formed(self) -> bool {
        &&& self.progress.wf()
        &&& self.progress.weight == phase_weight(self.progress.phase_idx as int)
        &&& self.progress.phase_pos <= self.progress.phase_len
        &&& 2 * self.files.len() <= usize::MAX
        &&& self.roots.len() <= usize::MAX
        &&& can_show(self.files)
        &&& can_show_roots(self.roots)
    }

    /// The display agrees with the step: the phase is that of the step, and the phase bar counts the
    /// items done and all items.
    pub open spec fn sound(self) -> bool {
        let y = self.group(Group::UnityYaml).len();
        let c = self.group(Group::CSharp).len();
        let a = self.group(Group::Assets).len();
        &&& self.well_formed()
        &&& match self.step {
            Step::Scan => self.progress.phase_idx == 0,
            Step::Open => self.in_phase(1, 0, 0),
            Step::Register(i) => i < self.files.len() && self.in_phase(1, i as nat, self.files.len()),
            Step::LoadIds => self.in_phase(1, self.files.len(), self.files.len()),
            Step::ReadYaml(i) | Step::StoreYaml(i) => i < y && self.in_phase(2, i as nat, y + c),
            Step::ReadCSharp(i) | Step::StoreCSharp(i) => i < c && self.in_phase(2, y + i as nat, y + c),
            Step::AddAsset(i) => i < a && self.in_phase(3, i as nat, a),
            Step::LoadAssets => self.in_phase(4, 0, 0),
            Step::Resolve(i) | Step::StoreEntities(i) => i < self.roots.len() && self.in_phase(
                4,
                i as nat,
                self.roots.len(),
            ),
            Step::BuildSymbols | Step::BindScripts => self.in_phase(5, 0, 0),
            Step::Materialize => self.in_phase(6, 0, 0),
            Step::Publish | Step::Commit | Step::Switch | Step::Finished => self.in_phase(7, 0, 0),
            Step::Failed => true,
        }
    }
}

/// Groups are no larger than the project.
pub proof fn lemma_group_sizes(files: Seq<DiscoveredFile>)
    ensures
        members(files, Group::UnityYaml).len() <= files.len(),
        members(files, Group::CSharp).len() <= files.len(),
        members(files, Group::Assets).len() <= files.len(),
    decreases files.len(),
{
    if files.len() > 0 {
        lemma_group_sizes(files.drop_last());
    }
}

proof fn lemma_begins(b: BuildView, idx: usize, elapsed: u64)
    requires
        b.well_formed(),
        idx < 8,
    ensures
        b.begins(idx, elapsed).to.well_formed(),
        b.begins(idx, elapsed).to.in_phase(idx as int, 0, 0),
        b.begins(idx, elapsed).to == (BuildView { progress: b.begins(idx, elapsed).to.progress, ..b }),
{
    reveal(BuildView::begins);
    crate::progress::lemma_weights(idx as nat);
}

proof fn lemma_to_asset(b: BuildView, i: int, elapsed: u64)
    requires
        b.well_formed(),
        0 <= i <= b.group(Group::Assets).len(),
        b.in_phase(3, i as nat, b.group(Group::Assets).len()),
    ensures
        b.to_asset(i, elapsed).to.sound(),
{
    reveal(BuildView::to_asset);
    lemma_group_sizes(b.files);
    lemma_begins(b, 4, elapsed);
}

proof fn lemma_to_csharp(b: BuildView, i: int, elapsed: u64)
    requires
        b.well_formed(),
        0 <= i <= b.group(Group::CSharp).len(),
        b.in_phase(
            2,
            b.group(Group::UnityYaml).len() + i as nat,
            b.group(Group::UnityYaml).len() + b.group(Group::CSharp).len(),
        ),
    ensures
        b.to_csharp(i, elapsed).to.sound(),
{
    reveal(BuildView::to_csharp);
    lemma_group_sizes(b.files);
    if i == b.group(Group::CSharp).len() {
        let begun = b.begins(3, elapsed).to;
        lemma_begins(b, 3, elapsed);
        let counted = begun.counts(b.group(Group::Assets).len(), 0).to;
        assert(counted.well_formed());
        lemma_to_asset(counted, 0, 0);
    }
}

proof fn lemma_to_yaml(b: BuildView, i: int, elapsed: u64)
    requires
        b.well_formed(),
        0 <= i <= b.group(Group::UnityYaml).len(),
        b.in_phase(2, i as nat, b.group(Group::UnityYaml).len() + b.group(Group::CSharp).len()),
    ensures
        b.to_yaml(i, elapsed).to.sound(),
{
    reveal(BuildView::to_yaml);
    lemma_group_sizes(b.files);
    if i == b.group(Group::UnityYaml).len() {
        lemma_to_csharp(b, 0, elapsed);
    }
}

proof fn lemma_to_resolve(b: BuildView, i: int, elapsed: u64)
    requires
        b.well_formed(),
        0 <= i <= b.roots.len(),
        b.in_phase(4, i as nat, b.roots.len()),
    ensures
        b.to_resolve(i, elapsed).to.sound(),
{
    reveal(BuildView::to_resolve);
    lemma_begins(b, 5, elapsed);
}

proof fn lemma_to_register(b: BuildView, i: int)
    requires
        b.well_formed(),
        0 <= i <= b.files.len(),
        b.in_phase(1, i as nat, b.files.len()),
    ensures
        b.to_register(i).to.sound(),
{
    reveal(BuildView::to_register);
}

proof fn lemma_after_work(b: BuildView, elapsed: u64)
    requires
        b.sound(),
        b.fits(Event::Done),
    ensures
        b.after_work(elapsed).to.sound(),
{
    reveal(BuildView::after_work);
    lemma_group_sizes(b.files);
    let done = b.item_done(elapsed).to;
    match b.step {
        Step::Open => {
            lemma_to_register(b.counts(b.files.len(), elapsed).to, 0);
        },
        Step::Register(i) => {
            lemma_to_register(done, i + 1);
        },
        Step::LoadIds => {
            lemma_begins(b, 2, elapsed);
            let begun = b.begins(2, elapsed).to;
            let counted = begun.counts(b.group(Group::UnityYaml).len() + b.group(Group::CSharp).len(), 0).to;
            assert(counted.well_formed());
            lemma_to_yaml(counted, 0, 0);
        },
        Step::StoreYaml(i) => {
            lemma_to_yaml(done, i + 1, elapsed);
        },
        Step::StoreCSharp(i) => {
            lemma_to_csharp(done, i + 1, elapsed);
        },
        Step::AddAsset(i) => {
            lemma_to_asset(done, i + 1, elapsed);
        },
        Step::StoreEntities(i) => {
            lemma_to_resolve(done, i + 1, elapsed);
        },
        Step::Materialize => {
            lemma_begins(b, 7, elapsed);
        },
        _ => {},
    }
}

/// Whatever comes of a step, the display keeps agreeing with the step: the phase bar counts exactly the
/// items that are done.
pub proof fn law_display_agrees(b: BuildView, event: Event, elapsed: u64)
    requires
        b.sound(),
        b.fits(event),
    ensures
        b.next(event, elapsed).to.sound(),
{
    match event {
        Event::Discovered(files) => {
            lemma_begins(BuildView { files: files@, ..b }, 1, elapsed);
        },
        Event::Skipped => {
            lemma_group_sizes(b.files);
            let done = b.item_done(elapsed).to;
            match b.step {
                Step::ReadYaml(i) => {
                    lemma_to_yaml(done, i + 1, elapsed);
                },
                Step::ReadCSharp(i) => {
                    lemma_to_csharp(done, i + 1, elapsed);
                },
                _ => {},
            }
        },
        Event::Assets(roots) => {
            let loaded = BuildView { roots: texts(roots@), ..b };
            let counted = loaded.counts(roots@.len(), elapsed).to;
            assert(counted.well_formed());
            lemma_to_resolve(counted, 0, elapsed);
        },
        Event::Bound(n) => {
            lemma_begins(BuildView { bound: n, ..b }, 6, elapsed);
        },
        Event::Done => {
            lemma_after_work(b, elapsed);
        },
        _ => {},
    }
}

/// Appends bar operations.
fn append_draws(out: &mut Vec<Draw>, more: Vec<Draw>)
    ensures
        draws(final(out)@) == draws(old(out)@) + draws(more@),
{
    let ghost before = draws(out@);
    let ghost added = draws(more@);
    let mut more = more;
    out.append(&mut more);
    assert(draws(out@) =~= before + added);
}

impl BuildView {
    /// A build at its beginning.
    pub open spec fn start() -> BuildView {
        BuildView {
            step: Step::Scan,
            progress: ProgressView::initial().begun(0, 0),
            files: Seq::empty(),
            roots: Seq::empty(),
            bound: 0,
        }
    }
}

impl Build {
    /// The display agrees with the step, and the groups are those of the files.
    pub open spec fn wf(self) -> bool {
        &&& self@.sound()
        &&& self.grouped()
    }

    /// The groups are those of the files.
    pub open spec fn grouped(self) -> bool {
        &&& positions(self.yaml@) == self@.group(Group::UnityYaml)
        &&& positions(self.csharp@) == self@.group(Group::CSharp)
        &&& positions(self.assets@) == self@.group(Group::Assets)
    }

    /// A build at its beginning, and the bar operations that show it.
    pub fn new() -> (r: (Build, Vec<Draw>))
        ensures
            r.0.wf(),
            r.0@ == BuildView::start(),
            draws(r.1@) == r.0@.progress.begin_draws(),
    {
        let mut progress = IndexProgress::new();
        let out = progress.phase(0, 0);
        let build = Build {
            step: Step::Scan,
            progress,
            files: Vec::new(),
            yaml: Vec::new(),
            csharp: Vec::new(),
            assets: Vec::new(),
            roots: Vec::new(),
            bound: 0,
        };
        assert(build@.roots =~= Seq::<Seq<char>>::empty());
        assert(positions(build.yaml@) =~= build@.group(Group::UnityYaml));
        assert(positions(build.csharp@) =~= build@.group(Group::CSharp));
        assert(positions(build.assets@) =~= build@.group(Group::Assets));
        (build, out)
    }

    /// Feedback while files are being found: `done` so far, out of `total` where it is known.
    pub fn on_discovery(&mut self, done: u64, total: Option<u64>, elapsed: u64) -> (r: Vec<Draw>)
        requires
            old(self).wf(),
            old(self).step == Step::Scan,
        ensures
            final(self).wf(),
            *final(self) == (Build { progress: final(self).progress, ..*old(self) }),
            final(self).progress@ == match total {
                Some(total) => old(self).progress@.with_items(done, total),
                None => old(self).progress@,
            },
            draws(r@) == old(self).progress@.discovery_draws(done, total, elapsed as nat),
    {
        self.progress.on_discovery(done, total, elapsed)
    }

    /// Ends the current phase and begins another.
    fn begin(&mut self, idx: usize, elapsed: u64) -> (r: Vec<Draw>)
        requires
            old(self)@.well_formed(),
            idx < 8,
        ensures
            *final(self) == (Build { progress: final(self).progress, ..*old(self) }),
            final(self)@ == old(self)@.begins(idx, elapsed).to,
            draws(r@) == old(self)@.begins(idx, elapsed).draws,
    {
        proof {
            reveal(BuildView::begins);
        }
        let mut out = self.progress.finish_phase(elapsed);
        let more = self.progress.phase(idx, elapsed);
        append_draws(&mut out, more);
        out
    }

    /// Shows a file of the project.
    fn show_file(&self, position: usize) -> (r: Vec<Draw>)
        requires
            position < self.files@.len(),
            can_cut(self.files@[position as int].project_rel_path@),
        ensures
            draws(r@) == seq![DrawView::FileMessage(shown_path(self.files@[position as int].project_rel_path@))],
    {
        self.progress.set_current_file(self.files[position].project_rel_path.as_str())
    }

    /// On to the file at `i`, or to the ids.
    fn to_register(&mut self, i: usize)
        ensures
            *final(self) == (Build { step: final(self).step, ..*old(self) }),
            final(self)@ == old(self)@.to_register(i as int).to,
            old(self)@.to_register(i as int).draws == Seq::<DrawView>::empty(),
    {
        proof {
            reveal(BuildView::to_register);
        }
        if i < self.files.len() {
            self.step = Step::Register(i);
        } else {
            self.step = Step::LoadIds;
        }
    }

    /// On to the asset at `i`, or to the entity graph.
    fn to_asset(&mut self, i: usize, elapsed: u64) -> (r: Vec<Draw>)
        requires
            old(self)@.well_formed(),
            old(self).grouped(),
        ensures
            *final(self) == (Build { step: final(self).step, progress: final(self).progress, ..*old(self) }),
            final(self)@ == old(self)@.to_asset(i as int, elapsed).to,
            draws(r@) == old(self)@.to_asset(i as int, elapsed).draws,
    {
        proof {
            reveal(BuildView::to_asset);
        }
        assert(positions(self.assets@).len() == self.assets@.len());
        if i < self.assets.len() {
            self.step = Step::AddAsset(i);
            no_draws()
        } else {
            let out = self.begin(4, elapsed);
            self.step = Step::LoadAssets;
            assert(draws(out@) + Seq::<DrawView>::empty() =~= draws(out@));
            out
        }
    }

    /// On to the C# file at `i`, or to the assets.
    fn to_csharp(&mut self, i: usize, elapsed: u64) -> (r: Vec<Draw>)
        requires
            old(self)@.well_formed(),
            old(self).grouped(),
        ensures
            *final(self) == (Build { step: final(self).step, progress: final(self).progress, ..*old(self) }),
            final(self)@ == old(self)@.to_csharp(i as int, elapsed).to,
            draws(r@) == old(self)@.to_csharp(i as int, elapsed).draws,
    {
        proof {
            reveal(BuildView::to_csharp);
            lemma_shown(self@, Group::CSharp);
        }
        assert(positions(self.csharp@).len() == self.csharp@.len());
        assert(positions(self.assets@).len() == self.assets@.len());
        if i < self.csharp.len() {
            self.step = Step::ReadCSharp(i);
            assert(positions(self.csharp@)[i as int] == self.csharp@[i as int]);
            self.show_file(self.csharp[i])
        } else {
            proof {
                lemma_begins(self@, 3, elapsed);
            }
            let mut out = self.begin(3, elapsed);
            let more = self.progress.set_len(self.assets.len() as u64, 0);
            append_draws(&mut out, more);
            let more = self.to_asset(0, 0);
            append_draws(&mut out, more);
            out
        }
    }

    /// On to the Unity YAML file at `i`, or to the C# files.
    fn to_yaml(&mut self, i: usize, elapsed: u64) -> (r: Vec<Draw>)
        requires
            old(self)@.well_formed(),
            old(self).grouped(),
        ensures
            *final(self) == (Build { step: final(self).step, progress: final(self).progress, ..*old(self) }),
            final(self)@ == old(self)@.to_yaml(i as int, elapsed).to,
            draws(r@) == old(self)@.to_yaml(i as int, elapsed).draws,
    {
        proof {
            reveal(BuildView::to_yaml);
            lemma_shown(self@, Group::UnityYaml);
        }
        assert(positions(self.yaml@).len() == self.yaml@.len());
        if i < self.yaml.len() {
            self.step = Step::ReadYaml(i);
            assert(positions(self.yaml@)[i as int] == self.yaml@[i as int]);
            self.show_file(self.yaml[i])
        } else {
            self.to_csharp(0, elapsed)
        }
    }

    /// On to the entities of the asset at `i`, or to the symbols.
    fn to_resolve(&mut self, i: usize, elapsed: u64) -> (r: Vec<Draw>)
        requires
            old(self)@.well_formed(),
        ensures
            *final(self) == (Build { step: final(self).step, progress: final(self).progress, ..*old(self) }),
            final(self)@ == old(self)@.to_resolve(i as int, elapsed).to,
            draws(r@) == old(self)@.to_resolve(i as int, elapsed).draws,
    {
        proof {
            reveal(BuildView::to_resolve);
        }
        assert(texts(self.roots@).len() == self.roots@.len());
        if i < self.roots.len() {
            self.step = Step::Resolve(i);
            assert(texts(self.roots@)[i as int] == self.roots@[i as int]@);
            self.progress.set_current_file(self.roots[i].as_str())
        } else {
            let out = self.begin(5, elapsed);
            self.step = Step::BuildSymbols;
            assert(draws(out@) + Seq::<DrawView>::empty() =~= draws(out@));
            out
        }
    }
}

/// The paths of a group that is read can be shown.
proof fn lemma_shown(b: BuildView, group: Group)
    requires
        can_show(b.files),
        group == Group::UnityYaml || group == Group::CSharp,
    ensures
        forall|i: int|
            0 <= i < b.group(group).len() ==> 0 <= (#[trigger] b.group(group)[i]) < b.files.len() && can_cut(
                b.files[b.group(group)[i]].project_rel_path@,
            ),
{
    law_members(b.files, group);
    assert forall|i: int| 0 <= i < b.group(group).len() implies 0 <= (#[trigger] b.group(group)[i]) < b.files.len()
        && can_cut(b.files[b.group(group)[i]].project_rel_path@) by {
        assert(members(b.files, group).contains(b.group(group)[i]));
        assert(belongs(b.files[b.group(group)[i]], group));
    }
}

impl Build {
    /// One more item is done.
    fn count_item(&mut self, elapsed: u64) -> (r: Vec<Draw>)
        requires
            old(self)@.well_formed(),
        ensures
            *final(self) == (Build { progress: final(self).progress, ..*old(self) }),
            final(self)@ == old(self)@.item_done(elapsed).to,
            final(self)@.well_formed(),
            draws(r@) == old(self)@.item_done(elapsed).draws,
    {
        self.progress.inc(elapsed)
    }

    /// A step without a result of its own is done.
    fn work_done(&mut self, elapsed: u64) -> (r: Vec<Draw>)
        requires
            old(self).wf(),
            old(self)@.fits(Event::Done),
        ensures
            *final(self) == (Build { step: final(self).step, progress: final(self).progress, ..*old(self) }),
            final(self)@ == old(self)@.after_work(elapsed).to,
            draws(r@) == old(self)@.after_work(elapsed).draws,
    {
        proof {
            reveal(BuildView::after_work);
            lemma_group_sizes(self@.files);
        }
        assert(positions(self.yaml@).len() == self.yaml@.len());
        assert(positions(self.csharp@).len() == self.csharp@.len());
        match self.step {
            Step::Open => {
                let out = self.progress.set_len(self.files.len() as u64, elapsed);
                self.to_register(0);
                assert(draws(out@) + Seq::<DrawView>::empty() =~= draws(out@));
                out
            },
            Step::Register(i) => {
                let out = self.count_item(elapsed);
                self.to_register(i + 1);
                assert(draws(out@) + Seq::<DrawView>::empty() =~= draws(out@));
                out
            },
            Step::LoadIds => {
                proof {
                    lemma_begins(self@, 2, elapsed);
                }
                let mut out = self.begin(2, elapsed);
                let more = self.progress.set_len((self.yaml.len() + self.csharp.len()) as u64, 0);
                append_draws(&mut out, more);
                let more = self.to_yaml(0, 0);
                append_draws(&mut out, more);
                out
            },
            Step::StoreYaml(i) => {
                let mut out = self.count_item(elapsed);
                let more = self.to_yaml(i + 1, elapsed);
                append_draws(&mut out, more);
                out
            },
            Step::StoreCSharp(i) => {
                let mut out = self.count_item(elapsed);
                let more = self.to_csharp(i + 1, elapsed);
                append_draws(&mut out, more);
                out
            },
            Step::AddAsset(i) => {
                let mut out = self.count_item(elapsed);
                let more = self.to_asset(i + 1, elapsed);
                append_draws(&mut out, more);
                out
            },
            Step::StoreEntities(i) => {
                let mut out = self.count_item(elapsed);
                let more = self.to_resolve(i + 1, elapsed);
                append_draws(&mut out, more);
                out
            },
            Step::BuildSymbols => {
                self.step = Step::BindScripts;
                no_draws()
            },
            Step::Materialize => {
                let out = self.begin(7, elapsed);
                self.step = Step::Publish;
                assert(draws(out@) + Seq::<DrawView>::empty() =~= draws(out@));
                out
            },
            Step::Publish => {
                self.step = Step::Commit;
                no_draws()
            },
            Step::Commit => {
                self.step = Step::Switch;
                no_draws()
            },
            Step::Switch => {
                let out = self.progress.finish_phase(elapsed);
                self.step = Step::Finished;
                assert(draws(out@) + Seq::<DrawView>::empty() =~= draws(out@));
                out
            },
            _ => {
                self.step = Step::Failed;
                no_draws()
            },
        }
    }

    /// A file holds nothing.
    fn file_skipped(&mut self, elapsed: u64) -> (r: Vec<Draw>)
        requires
            old(self).wf(),
            old(self)@.fits(Event::Skipped),
        ensures
            *final(self) == (Build { step: final(self).step, progress: final(self).progress, ..*old(self) }),
            final(self)@ == old(self)@.after_skipping(elapsed).to,
            draws(r@) == old(self)@.after_skipping(elapsed).draws,
    {
        proof {
            lemma_group_sizes(self@.files);
        }
        match self.step {
            Step::ReadYaml(i) => {
                let mut out = self.count_item(elapsed);
                let more = self.to_yaml(i + 1, elapsed);
                append_draws(&mut out, more);
                out
            },
            Step::ReadCSharp(i) => {
                let mut out = self.count_item(elapsed);
                let more = self.to_csharp(i + 1, elapsed);
                append_draws(&mut out, more);
                out
            },
            _ => {
                self.step = Step::Failed;
                no_draws()
            },
        }
    }

    /// Takes what came of the current step, `elapsed` nanoseconds after the phase began: goes on to the
    /// next step and returns the bar operations that show it.
    pub fn advance(&mut self, event: Event, elapsed: u64) -> (r: Vec<Draw>)
        requires
            old(self).wf(),
            old(self)@.fits(event),
        ensures
            final(self).wf(),
            final(self)@ == old(self)@.next(event, elapsed).to,
            draws(r@) == old(self)@.next(event, elapsed).draws,
    {
        proof {
            law_display_agrees(self@, event, elapsed);
        }
        let ghost b = self@;
        match event {
            Event::Discovered(files) => {
                self.yaml = select(&files, Group::UnityYaml);
                self.csharp = select(&files, Group::CSharp);
                self.assets = select(&files, Group::Assets);
                self.files = files;
                let out = self.begin(1, elapsed);
                self.step = Step::Open;
                assert(draws(out@) + Seq::<DrawView>::empty() =~= draws(out@));
                out
            },
            Event::Yaml { objects, references, bytes } => {
                let out = self.progress.stat_yaml(objects, references, bytes, elapsed);
                if let Step::ReadYaml(i) = self.step {
                    self.step = Step::StoreYaml(i);
                }
                assert(draws(out@) + Seq::<DrawView>::empty() =~= draws(out@));
                out
            },
            Event::CSharp { declarations, mentions, bytes } => {
                let out = self.progress.stat_cs(declarations, mentions, bytes, elapsed);
                if let Step::ReadCSharp(i) = self.step {
                    self.step = Step::StoreCSharp(i);
                }
                assert(draws(out@) + Seq::<DrawView>::empty() =~= draws(out@));
                out
            },
            Event::Entities(n) => {
                let out = self.progress.stat_entities(n, elapsed);
                if let Step::Resolve(i) = self.step {
                    self.step = Step::StoreEntities(i);
                }
                assert(draws(out@) + Seq::<DrawView>::empty() =~= draws(out@));
                out
            },
            Event::Skipped => self.file_skipped(elapsed),
            Event::Assets(roots) => {
                self.roots = roots;
                assert(texts(roots@).len() == roots@.len());
                let mut out = self.progress.set_len(self.roots.len() as u64, elapsed);
                let more = self.to_resolve(0, elapsed);
                append_draws(&mut out, more);
                out
            },
            Event::Bound(n) => {
                self.bound = n;
                let out = self.begin(6, elapsed);
                self.step = Step::Materialize;
                assert(draws(out@) + Seq::<DrawView>::empty() =~= draws(out@));
                out
            },
            Event::Done => self.work_done(elapsed),
            Event::Failed => {
                self.step = Step::Failed;
                no_draws()
            },
        }
    }

    /// Ends the display of a finished build: the bar operations, and the lines to print. The lines are
    /// the breakdown by phases and the closing line. `elapsed` is the time of the whole build, `in_phase`
    /// that of the last phase, and `index` the place of the index.
    pub fn report(&mut self, elapsed: u64, in_phase: u64, index: &str) -> (r: (Vec<Draw>, Vec<String>))
        requires
            old(self).wf(),
            old(self).step == Step::Finished,
        ensures
            final(self).wf(),
            final(self)@ == (BuildView { progress: old(self)@.progress.ended(in_phase), ..old(self)@ }),
            draws(r.0@) == seq![
                DrawView::FileDone,
                DrawView::PhaseDone,
                DrawView::OverallDone("done in "@ + seconds_text(elapsed as nat) + "s"@),
            ],
            texts(r.1@) == breakdown(final(self)@.progress.phase_times).push(
                summary_text(
                    elapsed as nat,
                    index@,
                    old(self)@.files.len(),
                    old(self)@.group(Group::Assets).len(),
                    old(self).bound as nat,
                ),
            ),
    {
        let (out, mut lines) = self.progress.finish(elapsed, in_phase);
        assert(positions(self.assets@).len() == self.assets@.len());
        let closing = build_summary(elapsed, index, self.files.len() as u64, self.assets.len() as u64, self.bound);
        let ghost before = texts(lines@);
        lines.push(closing);
        assert(texts(lines@) =~= before.push(closing@));
        (out, lines)
    }
}

/// No bar operations.
fn no_draws() -> (r: Vec<Draw>)
    ensures
        draws(r@) == Seq::<DrawView>::empty(),
{
    let r: Vec<Draw> = Vec::new();
    assert(draws(r@) =~= Seq::<DrawView>::empty());
    r
}

} // verus!
