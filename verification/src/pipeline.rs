//! The run as a sequence of steps.
//!
//! The pipeline decides; its caller acts. Each step that is not final names
//! one thing to find out: whether the root directory exists, what the
//! traversal yields, the size of one image, the records of the metadata
//! file. The caller finds it out and resumes the step with the answer, which
//! gives the next step. A run ends with a listing or with an error, and with
//! nothing listed where it ends with an error.

use crate::candidates::{
    directories_of, images_of, paths_by_presence, select_by_presence, select_directories,
    select_images, Entry, EntryView,
};
use crate::dimensions::{dimension_filter_active, dims_match, matches_dims, Dimensions};
use crate::error::{PipelineError, PipelineErrorView};
use crate::metadata::{ImageMeta, ImageMetaView};
use crate::score::{ScoreFilter, ScoreFilterView};
use crate::settings::{
    resolved_plan, Arguments, ArgumentsView, Configuration, ConfigurationView, NodeType, Plan,
    PlanView,
};
use crate::store::{load, narrow_all, MetadataStore};
use vstd::prelude::*;

verus! {

/// The paths that a run lists, in the order of the traversal, and the
/// images among the candidates for which the metadata held no record. The
/// latter are to be warned about; none of them is listed.
#[derive(Debug)]
pub struct Listing {
    pub paths: Vec<String>,
    pub unannotated: Vec<String>,
}

/// A run that waits to learn whether its root directory exists.
#[derive(Debug)]
pub struct DirectoryCheck {
    plan: Plan,
}

/// A run that waits for the entries under its root directory.
#[derive(Debug)]
pub struct Traversal {
    plan: Plan,
}

/// A run that waits for the size of one of its candidates.
#[derive(Debug)]
pub struct Probing {
    plan: Plan,
    candidates: Vec<String>,
    next: usize,
    kept: Vec<String>,
}

/// A run that waits for the records of its metadata file.
#[derive(Debug)]
pub struct MetadataLoad {
    metadata_path: String,
    filters: Vec<ScoreFilter>,
    candidates: Vec<String>,
}

/// What a run does next.
#[derive(Debug)]
pub enum Step {
    /// Print the default configuration; the run is over.
    PrintDefaultConfiguration,
    /// Find out whether the root directory exists.
    CheckDirectory(DirectoryCheck),
    /// Walk the tree under the root directory.
    Walk(Traversal),
    /// Probe the size of one image.
    Probe(Probing),
    /// Load the records of the metadata file.
    LoadMetadata(MetadataLoad),
    /// Print the listing; the run is over.
    Emit(Listing),
    /// Report the error; the run is over, and nothing is listed.
    Fail(PipelineError),
}

/// What a listing means.
pub struct ListingView {
    pub paths: Seq<Seq<char>>,
    pub unannotated: Seq<Seq<char>>,
}

/// What a run that probes means: its plan, its candidates, the place of the
/// candidate whose size is asked for, and the candidates before it that
/// passed.
pub struct ProbingView {
    pub plan: PlanView,
    pub candidates: Seq<Seq<char>>,
    pub next: nat,
    pub kept: Seq<Seq<char>>,
}

/// What a run that loads metadata means: the file to load, the filters to
/// apply, and the candidates.
pub struct MetadataLoadView {
    pub metadata_path: Seq<char>,
    pub filters: Seq<ScoreFilterView>,
    pub candidates: Seq<Seq<char>>,
}

/// What a step means.
pub enum StepView {
    PrintDefaultConfiguration,
    CheckDirectory(PlanView),
    Walk(PlanView),
    Probe(ProbingView),
    LoadMetadata(MetadataLoadView),
    Emit(ListingView),
    Fail(PipelineErrorView),
}

impl View for Listing {
    type V = ListingView;

    open spec fn view(&self) -> ListingView {
        ListingView { paths: self.paths.deep_view(), unannotated: self.unannotated.deep_view() }
    }
}

impl View for DirectoryCheck {
    type V = PlanView;

    closed spec fn view(&self) -> PlanView {
        self.plan@
    }
}

impl View for Traversal {
    type V = PlanView;

    closed spec fn view(&self) -> PlanView {
        self.plan@
    }
}

impl View for Probing {
    type V = ProbingView;

    closed spec fn view(&self) -> ProbingView {
        ProbingView {
            plan: self.plan@,
            candidates: self.candidates.deep_view(),
            next: self.next as nat,
            kept: self.kept.deep_view(),
        }
    }
}

impl View for MetadataLoad {
    type V = MetadataLoadView;

    closed spec fn view(&self) -> MetadataLoadView {
        MetadataLoadView {
            metadata_path: self.metadata_path@,
            filters: self.filters.deep_view(),
            candidates: self.candidates.deep_view(),
        }
    }
}

impl View for Step {
    type V = StepView;

    open spec fn view(&self) -> StepView {
        match self {
            Step::PrintDefaultConfiguration => StepView::PrintDefaultConfiguration,
            Step::CheckDirectory(check) => StepView::CheckDirectory(check@),
            Step::Walk(traversal) => StepView::Walk(traversal@),
            Step::Probe(probing) => StepView::Probe(probing@),
            Step::LoadMetadata(loading) => StepView::LoadMetadata(loading@),
            Step::Emit(listing) => StepView::Emit(listing@),
            Step::Fail(error) => StepView::Fail(error@),
        }
    }
}

/// The first step of listing nodes of one kind: to check the root
/// directory, or to fail where no root directory is named.
pub open spec fn listing_start(
    node_type: NodeType,
    arguments: ArgumentsView,
    configuration: ConfigurationView,
) -> StepView {
    match resolved_plan(node_type, arguments, configuration) {
        Some(plan) => StepView::CheckDirectory(plan),
        None => StepView::Fail(PipelineErrorView::ConfigError),
    }
}

/// The first step of a run: to print the default configuration where that
/// is asked for, else the first step of listing what the arguments name.
pub open spec fn first_step(arguments: ArgumentsView, configuration: ConfigurationView) -> StepView {
    if arguments.generate_config {
        StepView::PrintDefaultConfiguration
    } else {
        listing_start(arguments.node_type, arguments, configuration)
    }
}

/// The step after the root directory was checked: to walk it where it
/// exists, else to fail.
pub open spec fn after_directory_check(plan: PlanView, exists: bool) -> StepView {
    if exists {
        StepView::Walk(plan)
    } else {
        StepView::Fail(PipelineErrorView::MissingDirectory { path: plan.root })
    }
}

/// The step after the traversal: a run for directories lists them; a run
/// for images goes on with the images among the entries.
pub open spec fn after_walk(plan: PlanView, entries: Seq<EntryView>) -> StepView {
    match plan.node_type {
        NodeType::Directory => StepView::Emit(
            ListingView { paths: directories_of(entries), unannotated: Seq::empty() },
        ),
        NodeType::Image => dimension_stage(plan, images_of(entries)),
    }
}

/// The step that opens the filtering by size: to probe the first candidate
/// where a range is set and there is a candidate, else to go on to the
/// scores with all candidates.
pub open spec fn dimension_stage(plan: PlanView, candidates: Seq<Seq<char>>) -> StepView {
    if dimension_filter_active(plan.width_range, plan.height_range) && candidates.len() > 0 {
        StepView::Probe(ProbingView { plan, candidates, next: 0, kept: Seq::empty() })
    } else {
        score_stage(plan, candidates)
    }
}

/// The step after one candidate was probed: the candidate is kept where its
/// size passes the ranges; then the next candidate is probed, or, after the
/// last one, the run goes on to the scores with those kept.
pub open spec fn after_probe(probing: ProbingView, dims: Option<Dimensions>) -> StepView {
    let kept = if dims_match(dims, probing.plan.width_range, probing.plan.height_range) {
        probing.kept.push(probing.candidates[probing.next as int])
    } else {
        probing.kept
    };
    if probing.next + 1 < probing.candidates.len() {
        StepView::Probe(
            ProbingView {
                plan: probing.plan,
                candidates: probing.candidates,
                next: probing.next + 1,
                kept,
            },
        )
    } else {
        score_stage(probing.plan, kept)
    }
}

/// The step that opens the filtering by score: without score filters the
/// candidates are listed; with them the metadata file is loaded, and the
/// run fails where none is named.
pub open spec fn score_stage(plan: PlanView, candidates: Seq<Seq<char>>) -> StepView {
    match plan.score_filters {
        None => StepView::Emit(ListingView { paths: candidates, unannotated: Seq::empty() }),
        Some(filters) => match plan.metadata_path {
            None => StepView::Fail(PipelineErrorView::MissingMetadataSource),
            Some(metadata_path) => StepView::LoadMetadata(
                MetadataLoadView { metadata_path, filters, candidates },
            ),
        },
    }
}

/// The step after the metadata file was read. Where reading failed the run
/// fails. Else the records are loaded into a store and narrowed by every
/// filter; the candidates for which a record is left are listed, and those
/// for which the file held no record at all are reported.
pub open spec fn after_load(
    loading: MetadataLoadView,
    loaded: Result<Seq<ImageMetaView>, Seq<char>>,
) -> StepView {
    match loaded {
        Err(cause) => StepView::Fail(
            PipelineErrorView::MetadataLoadError { path: loading.metadata_path, cause },
        ),
        Ok(records) => StepView::Emit(
            ListingView {
                paths: paths_by_presence(
                    loading.candidates,
                    narrow_all(load(records), loading.filters),
                    true,
                ),
                unannotated: paths_by_presence(loading.candidates, load(records), false),
            },
        ),
    }
}

/// The meaning of what reading the metadata file gave.
pub open spec fn loaded_view(loaded: Result<Vec<ImageMeta>, String>) -> Result<
    Seq<ImageMetaView>,
    Seq<char>,
> {
    match loaded {
        Ok(records) => Ok(records.deep_view()),
        Err(cause) => Err(cause@),
    }
}

fn score_stage_step(plan: Plan, candidates: Vec<String>) -> (step: Step)
    ensures
        step@ == score_stage(plan@, candidates.deep_view()),
{
    match plan.score_filters {
        None => {
            let unannotated: Vec<String> = Vec::new();
            assert(unannotated.deep_view() =~= Seq::<Seq<char>>::empty());
            Step::Emit(Listing { paths: candidates, unannotated })
        },
        Some(filters) => match plan.metadata_path {
            None => Step::Fail(PipelineError::MissingMetadataSource),
            Some(metadata_path) => Step::LoadMetadata(
                MetadataLoad { metadata_path, filters, candidates },
            ),
        },
    }
}

fn dimension_stage_step(plan: Plan, candidates: Vec<String>) -> (step: Step)
    ensures
        step@ == dimension_stage(plan@, candidates.deep_view()),
{
    if (plan.width_range.is_some() || plan.height_range.is_some()) && candidates.len() > 0 {
        let kept: Vec<String> = Vec::new();
        assert(kept.deep_view() =~= Seq::<Seq<char>>::empty());
        Step::Probe(Probing { plan, candidates, next: 0, kept })
    } else {
        score_stage_step(plan, candidates)
    }
}

/// Begins a run that lists directories, whatever kind the arguments name.
pub fn process_only_dirs(arguments: Arguments, configuration: Configuration) -> (step: Step)
    ensures
        step@ == listing_start(NodeType::Directory, arguments@, configuration@),
{
    match Plan::resolve(NodeType::Directory, arguments, configuration) {
        Some(plan) => Step::CheckDirectory(DirectoryCheck { plan }),
        None => Step::Fail(PipelineError::ConfigError),
    }
}

/// Begins a run that lists images, whatever kind the arguments name.
pub fn process_only_images(arguments: Arguments, configuration: Configuration) -> (step: Step)
    ensures
        step@ == listing_start(NodeType::Image, arguments@, configuration@),
{
    match Plan::resolve(NodeType::Image, arguments, configuration) {
        Some(plan) => Step::CheckDirectory(DirectoryCheck { plan }),
        None => Step::Fail(PipelineError::ConfigError),
    }
}

/// Begins a run: decides from the arguments whether to print the default
/// configuration, to list directories or to list images.
pub fn process_args(arguments: Arguments, configuration: Configuration) -> (step: Step)
    ensures
        step@ == first_step(arguments@, configuration@),
{
    if arguments.generate_config {
        return Step::PrintDefaultConfiguration;
    }
    match arguments.node_type {
        NodeType::Directory => process_only_dirs(arguments, configuration),
        NodeType::Image => process_only_images(arguments, configuration),
    }
}

impl DirectoryCheck {
    /// The root directory whose existence is asked for.
    pub fn root(&self) -> (root: &String)
        ensures
            root@ == self@.root,
    {
        &self.plan.root
    }

    /// Goes on, given whether the root directory exists.
    pub fn resume(self, exists: bool) -> (step: Step)
        ensures
            step@ == after_directory_check(self@, exists),
    {
        if exists {
            Step::Walk(Traversal { plan: self.plan })
        } else {
            Step::Fail(PipelineError::MissingDirectory { path: self.plan.root })
        }
    }
}

impl Traversal {
    /// The root directory whose tree is to be walked.
    pub fn root(&self) -> (root: &String)
        ensures
            root@ == self@.root,
    {
        &self.plan.root
    }

    /// Goes on, given the entries that the traversal yielded, in its order.
    pub fn resume(self, entries: Vec<Entry>) -> (step: Step)
        ensures
            step@ == after_walk(self@, entries.deep_view()),
    {
        match self.plan.node_type {
            NodeType::Directory => {
                let paths = select_directories(&entries);
                let unannotated: Vec<String> = Vec::new();
                assert(unannotated.deep_view() =~= Seq::<Seq<char>>::empty());
                Step::Emit(Listing { paths, unannotated })
            },
            NodeType::Image => {
                let candidates = select_images(&entries);
                dimension_stage_step(self.plan, candidates)
            },
        }
    }
}

impl Probing {
    #[verifier::type_invariant]
    spec fn has_candidate(self) -> bool {
        self.next < self.candidates.len()
    }

    /// The image whose size is asked for.
    pub fn path(&self) -> (path: &String)
        ensures
            self@.next < self@.candidates.len(),
            path@ == self@.candidates[self@.next as int],
    {
        proof {
            use_type_invariant(self);
        }
        &self.candidates[self.next]
    }

    /// Goes on, given the size of the image, or `None` where the probe
    /// failed.
    pub fn resume(self, dims: Option<Dimensions>) -> (step: Step)
        ensures
            step@ == after_probe(self@, dims),
    {
        proof {
            use_type_invariant(&self);
        }
        let ghost before = self.kept.deep_view();
        let ghost current = self.candidates.deep_view()[self.next as int];
        let plan = self.plan;
        let candidates = self.candidates;
        let next = self.next;
        let mut kept = self.kept;
        if matches_dims(dims, &plan.width_range, &plan.height_range) {
            kept.push(candidates[next].clone());
            assert(kept.deep_view() =~= before.push(current));
        }
        if next + 1 < candidates.len() {
            Step::Probe(Probing { plan, candidates, next: next + 1, kept })
        } else {
            score_stage_step(plan, kept)
        }
    }
}

impl MetadataLoad {
    /// The metadata file whose records are asked for.
    pub fn path(&self) -> (path: &String)
        ensures
            path@ == self@.metadata_path,
    {
        &self.metadata_path
    }

    /// Goes on, given the records of the metadata file in the order of the
    /// file, or the reason why it could not be read.
    pub fn resume(self, loaded: Result<Vec<ImageMeta>, String>) -> (step: Step)
        ensures
            step@ == after_load(self@, loaded_view(loaded)),
    {
        match loaded {
            Err(cause) => Step::Fail(
                PipelineError::MetadataLoadError { path: self.metadata_path, cause },
            ),
            Ok(records) => {
                let store = MetadataStore::from_records(records);
                let unannotated = select_by_presence(&self.candidates, &store, false);
                let survivors = store.narrow_all(&self.filters);
                let paths = select_by_presence(&self.candidates, &survivors, true);
                Step::Emit(Listing { paths, unannotated })
            },
        }
    }
}

} // verus!
