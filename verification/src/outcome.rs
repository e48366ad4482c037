//! What a run comes to.
//!
//! The steps of the pipeline say what happens after each answer. This
//! module says what a whole run gives, as a function of what was asked and
//! of what the file system holds, and proves that the steps, followed to
//! the end, give exactly that.

use crate::candidates::{
    directories_of, images_of, lemma_paths_by_dims_members, lemma_paths_by_dims_push,
    lemma_paths_by_presence_members, paths_by_dims, paths_by_presence, EntryView,
};
use crate::dimensions::{dimension_filter_active, Dimensions};
use crate::error::PipelineErrorView;
use crate::metadata::{passes_all, ImageMetaView};
use crate::pipeline::{
    after_directory_check, after_load, after_probe, after_walk, first_step, score_stage,
    ListingView, ProbingView, StepView,
};
use crate::settings::{resolved_plan, ArgumentsView, ConfigurationView, NodeType, PlanView};
use crate::store::{lemma_narrow_all_is_conjunction, load, narrow_all};
use vstd::prelude::*;

verus! {

/// What the pipeline's caller finds when it looks: whether the root
/// directory exists, the entries under it in the order of the traversal,
/// the size of each image where it can be probed, and the records of the
/// metadata file or the reason why it cannot be read.
pub struct World {
    pub directory_exists: bool,
    pub entries: Seq<EntryView>,
    pub sizes: spec_fn(Seq<char>) -> Option<Dimensions>,
    pub metadata: Result<Seq<ImageMetaView>, Seq<char>>,
}

/// Whether a step ends the run.
pub open spec fn is_final(step: StepView) -> bool {
    step is PrintDefaultConfiguration || step is Emit || step is Fail
}

/// Whether a step that probes names one of its candidates.
pub open spec fn names_candidate(step: StepView) -> bool {
    step matches StepView::Probe(probing) ==> probing.next < probing.candidates.len()
}

/// The step that follows when the world answers a step.
pub open spec fn answered(step: StepView, world: World) -> StepView {
    match step {
        StepView::CheckDirectory(plan) => after_directory_check(plan, world.directory_exists),
        StepView::Walk(plan) => after_walk(plan, world.entries),
        StepView::Probe(probing) => after_probe(
            probing,
            (world.sizes)(probing.candidates[probing.next as int]),
        ),
        StepView::LoadMetadata(loading) => after_load(loading, world.metadata),
        _ => step,
    }
}

/// A bound on the number of answers that a step still needs.
pub open spec fn answers_left(step: StepView, world: World) -> nat {
    match step {
        StepView::CheckDirectory(_) => images_of(world.entries).len() + 4,
        StepView::Walk(_) => images_of(world.entries).len() + 3,
        StepView::Probe(probing) => if probing.next < probing.candidates.len() {
            (probing.candidates.len() - probing.next + 1) as nat
        } else {
            0
        },
        StepView::LoadMetadata(_) => 1,
        _ => 0,
    }
}

/// The step that ends the run when the world answers every step from
/// `step` on.
pub open spec fn run_to_end(step: StepView, world: World) -> StepView
    decreases answers_left(step, world),
{
    if is_final(step) || !names_candidate(step) {
        step
    } else {
        run_to_end(answered(step, world), world)
    }
}

/// The candidates of an image run that are left after the filtering by
/// size: all images where no range is set, else those whose size passes.
pub open spec fn sized_images(plan: PlanView, world: World) -> Seq<Seq<char>> {
    if dimension_filter_active(plan.width_range, plan.height_range) {
        paths_by_dims(images_of(world.entries), world.sizes, plan.width_range, plan.height_range)
    } else {
        images_of(world.entries)
    }
}

/// What a run with a plan comes to in a world whose root directory exists.
pub open spec fn planned_outcome(plan: PlanView, world: World) -> StepView {
    match plan.node_type {
        NodeType::Directory => StepView::Emit(
            ListingView { paths: directories_of(world.entries), unannotated: Seq::empty() },
        ),
        NodeType::Image => match plan.score_filters {
            None => StepView::Emit(
                ListingView { paths: sized_images(plan, world), unannotated: Seq::empty() },
            ),
            Some(filters) => match plan.metadata_path {
                None => StepView::Fail(PipelineErrorView::MissingMetadataSource),
                Some(metadata_path) => match world.metadata {
                    Err(cause) => StepView::Fail(
                        PipelineErrorView::MetadataLoadError { path: metadata_path, cause },
                    ),
                    Ok(records) => StepView::Emit(
                        ListingView {
                            paths: paths_by_presence(
                                sized_images(plan, world),
                                narrow_all(load(records), filters),
                                true,
                            ),
                            unannotated: paths_by_presence(
                                sized_images(plan, world),
                                load(records),
                                false,
                            ),
                        },
                    ),
                },
            },
        },
    }
}

/// What a run comes to: the default configuration is printed where that is
/// asked for; the run fails where no root directory is named or the one
/// named does not exist; else it comes to what its plan gives.
pub open spec fn outcome(
    arguments: ArgumentsView,
    configuration: ConfigurationView,
    world: World,
) -> StepView {
    if arguments.generate_config {
        StepView::PrintDefaultConfiguration
    } else {
        match resolved_plan(arguments.node_type, arguments, configuration) {
            None => StepView::Fail(PipelineErrorView::ConfigError),
            Some(plan) => if world.directory_exists {
                planned_outcome(plan, world)
            } else {
                StepView::Fail(PipelineErrorView::MissingDirectory { path: plan.root })
            },
        }
    }
}

/// Probing the candidates one after the other keeps those whose size
/// passes, and then goes on to the scores.
proof fn lemma_probing_runs_to_score_stage(probing: ProbingView, world: World)
    requires
        probing.next < probing.candidates.len(),
        probing.kept == paths_by_dims(
            probing.candidates.take(probing.next as int),
            world.sizes,
            probing.plan.width_range,
            probing.plan.height_range,
        ),
    ensures
        run_to_end(StepView::Probe(probing), world) == run_to_end(
            score_stage(
                probing.plan,
                paths_by_dims(
                    probing.candidates,
                    world.sizes,
                    probing.plan.width_range,
                    probing.plan.height_range,
                ),
            ),
            world,
        ),
    decreases probing.candidates.len() - probing.next,
{
    let i = probing.next as int;
    let seen = probing.candidates.take(i);
    let current = probing.candidates[i];
    assert(probing.candidates.take(i + 1) =~= seen.push(current));
    lemma_paths_by_dims_push(
        seen,
        current,
        world.sizes,
        probing.plan.width_range,
        probing.plan.height_range,
    );
    let next_step = after_probe(probing, (world.sizes)(current));
    assert(run_to_end(StepView::Probe(probing), world) == run_to_end(next_step, world));
    if i + 1 < probing.candidates.len() {
        let next_probing = next_step->Probe_0;
        lemma_probing_runs_to_score_stage(next_probing, world);
    } else {
        assert(probing.candidates.take(i + 1) =~= probing.candidates);
    }
}

/// Following the steps from the first one, with the world's answer to each,
/// ends the run with exactly what `outcome` says.
pub proof fn lemma_steps_reach_outcome(
    arguments: ArgumentsView,
    configuration: ConfigurationView,
    world: World,
)
    ensures
        run_to_end(first_step(arguments, configuration), world) == outcome(
            arguments,
            configuration,
            world,
        ),
        is_final(outcome(arguments, configuration, world)),
{
    let start = first_step(arguments, configuration);
    if let StepView::CheckDirectory(plan) = start {
        let checked = after_directory_check(plan, world.directory_exists);
        assert(run_to_end(start, world) == run_to_end(checked, world));
        if world.directory_exists {
            let walked = after_walk(plan, world.entries);
            assert(run_to_end(checked, world) == run_to_end(walked, world));
            if plan.node_type == NodeType::Image {
                let images = images_of(world.entries);
                let scored = score_stage(plan, sized_images(plan, world));
                if dimension_filter_active(plan.width_range, plan.height_range) {
                    if images.len() > 0 {
                        let probing = ProbingView {
                            plan,
                            candidates: images,
                            next: 0,
                            kept: Seq::empty(),
                        };
                        assert(probing.kept =~= paths_by_dims(
                            images.take(0),
                            world.sizes,
                            plan.width_range,
                            plan.height_range,
                        )) by {
                            reveal(Seq::filter);
                        }
                        lemma_probing_runs_to_score_stage(probing, world);
                    } else {
                        assert(images =~= paths_by_dims(
                            images,
                            world.sizes,
                            plan.width_range,
                            plan.height_range,
                        )) by {
                            reveal(Seq::filter);
                        }
                    }
                }
                assert(run_to_end(walked, world) == run_to_end(scored, world));
                if let StepView::LoadMetadata(loading) = scored {
                    assert(run_to_end(scored, world) == run_to_end(
                        after_load(loading, world.metadata),
                        world,
                    ));
                }
            }
        }
    }
}

/// An image whose size cannot be probed is not listed by a run in which a
/// width or height range is set, whatever the bounds of the ranges are.
pub proof fn lemma_unprobed_images_are_not_listed(
    arguments: ArgumentsView,
    configuration: ConfigurationView,
    world: World,
    path: Seq<char>,
)
    requires
        arguments.node_type == NodeType::Image,
        resolved_plan(NodeType::Image, arguments, configuration) matches Some(plan)
            && dimension_filter_active(plan.width_range, plan.height_range),
        (world.sizes)(path) is None,
    ensures
        outcome(arguments, configuration, world) matches StepView::Emit(listing)
            ==> !listing.paths.contains(path),
{
    let plan = resolved_plan(NodeType::Image, arguments, configuration)->0;
    let images = images_of(world.entries);
    lemma_paths_by_dims_members(images, world.sizes, plan.width_range, plan.height_range, path);
    if let StepView::Emit(listing) = outcome(arguments, configuration, world) {
        if let Some(filters) = plan.score_filters {
            if let Ok(records) = world.metadata {
                lemma_paths_by_presence_members(
                    sized_images(plan, world),
                    narrow_all(load(records), filters),
                    true,
                    path,
                );
            }
        }
    }
}

/// What a run with score filters lists are candidates for which the metadata
/// held a record, and a record that passes every filter: an image without
/// metadata is never listed, and none that is reported as lacking metadata
/// is.
pub proof fn lemma_listed_images_are_annotated(
    arguments: ArgumentsView,
    configuration: ConfigurationView,
    world: World,
    path: Seq<char>,
)
    requires
        arguments.node_type == NodeType::Image,
        resolved_plan(NodeType::Image, arguments, configuration) matches Some(plan)
            && plan.score_filters is Some,
        outcome(arguments, configuration, world) matches StepView::Emit(listing)
            && listing.paths.contains(path),
    ensures
        world.metadata is Ok,
        sized_images(
            resolved_plan(NodeType::Image, arguments, configuration)->0,
            world,
        ).contains(path),
        load(world.metadata->Ok_0).contains_key(path),
        passes_all(
            load(world.metadata->Ok_0)[path],
            resolved_plan(NodeType::Image, arguments, configuration)->0.score_filters->0,
        ),
        !(outcome(arguments, configuration, world)->Emit_0).unannotated.contains(path),
{
    let plan = resolved_plan(NodeType::Image, arguments, configuration)->0;
    let filters = plan.score_filters->0;
    let records = world.metadata->Ok_0;
    let candidates = sized_images(plan, world);
    lemma_paths_by_presence_members(candidates, narrow_all(load(records), filters), true, path);
    lemma_paths_by_presence_members(candidates, load(records), false, path);
    lemma_narrow_all_is_conjunction(load(records), filters);
}

} // verus!
