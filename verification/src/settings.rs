//! What a run is asked to do: the arguments of the run, the configuration
//! they fall back on, and the plan that the two resolve to.

use crate::dimensions::Range;
use crate::score::{ScoreFilter, ScoreFilterView};
use vstd::prelude::*;

verus! {

/// What a run lists.
#[derive(Clone, Copy, Debug, PartialEq, Eq, Structural)]
pub enum NodeType {
    Directory,
    Image,
}

/// What was asked for this run. A value that is present takes precedence
/// over the configuration.
#[derive(Debug)]
pub struct Arguments {
    pub generate_config: bool,
    pub node_type: NodeType,
    pub directory: Option<String>,
    pub metadata_path: Option<String>,
    pub score_filters: Option<Vec<ScoreFilter>>,
    pub width_range: Option<Range>,
    pub height_range: Option<Range>,
}

/// The defaults that a run falls back on.
#[derive(Debug)]
pub struct Configuration {
    pub root_images_dir: Option<String>,
    pub metadata_path: Option<String>,
    pub score_filters: Option<Vec<ScoreFilter>>,
    pub width_range: Option<Range>,
    pub height_range: Option<Range>,
}

/// What a run will do: what it lists, from which root, and with which
/// filters.
#[derive(Debug)]
pub struct Plan {
    pub node_type: NodeType,
    pub root: String,
    pub metadata_path: Option<String>,
    pub score_filters: Option<Vec<ScoreFilter>>,
    pub width_range: Option<Range>,
    pub height_range: Option<Range>,
}

/// What the arguments mean.
pub struct ArgumentsView {
    pub generate_config: bool,
    pub node_type: NodeType,
    pub directory: Option<Seq<char>>,
    pub metadata_path: Option<Seq<char>>,
    pub score_filters: Option<Seq<ScoreFilterView>>,
    pub width_range: Option<Range>,
    pub height_range: Option<Range>,
}

/// What the configuration means.
pub struct ConfigurationView {
    pub root_images_dir: Option<Seq<char>>,
    pub metadata_path: Option<Seq<char>>,
    pub score_filters: Option<Seq<ScoreFilterView>>,
    pub width_range: Option<Range>,
    pub height_range: Option<Range>,
}

/// What a plan means.
pub struct PlanView {
    pub node_type: NodeType,
    pub root: Seq<char>,
    pub metadata_path: Option<Seq<char>>,
    pub score_filters: Option<Seq<ScoreFilterView>>,
    pub width_range: Option<Range>,
    pub height_range: Option<Range>,
}

/// The characters of a text that may be absent.
pub open spec fn text_of(text: Option<String>) -> Option<Seq<char>> {
    match text {
        Some(t) => Some(t@),
        None => None,
    }
}

/// The meaning of a list of filters that may be absent.
pub open spec fn filters_of(filters: Option<Vec<ScoreFilter>>) -> Option<Seq<ScoreFilterView>> {
    match filters {
        Some(list) => Some(list.deep_view()),
        None => None,
    }
}

/// The preferred value where it is present, else the fallback.
pub open spec fn first_of<T>(preferred: Option<T>, fallback: Option<T>) -> Option<T> {
    if preferred is Some {
        preferred
    } else {
        fallback
    }
}

impl View for Arguments {
    type V = ArgumentsView;

    open spec fn view(&self) -> ArgumentsView {
        ArgumentsView {
            generate_config: self.generate_config,
            node_type: self.node_type,
            directory: text_of(self.directory),
            metadata_path: text_of(self.metadata_path),
            score_filters: filters_of(self.score_filters),
            width_range: self.width_range,
            height_range: self.height_range,
        }
    }
}

impl View for Configuration {
    type V = ConfigurationView;

    open spec fn view(&self) -> ConfigurationView {
        ConfigurationView {
            root_images_dir: text_of(self.root_images_dir),
            metadata_path: text_of(self.metadata_path),
            score_filters: filters_of(self.score_filters),
            width_range: self.width_range,
            height_range: self.height_range,
        }
    }
}

impl View for Plan {
    type V = PlanView;

    open spec fn view(&self) -> PlanView {
        PlanView {
            node_type: self.node_type,
            root: self.root@,
            metadata_path: text_of(self.metadata_path),
            score_filters: filters_of(self.score_filters),
            width_range: self.width_range,
            height_range: self.height_range,
        }
    }
}

/// The plan for listing nodes of one kind: each setting is taken from the
/// arguments where they give it and from the configuration where they do
/// not. There is no plan without a root directory.
pub open spec fn resolved_plan(
    node_type: NodeType,
    arguments: ArgumentsView,
    configuration: ConfigurationView,
) -> Option<PlanView> {
    match first_of(arguments.directory, configuration.root_images_dir) {
        Some(root) => Some(
            PlanView {
                node_type,
                root,
                metadata_path: first_of(arguments.metadata_path, configuration.metadata_path),
                score_filters: first_of(arguments.score_filters, configuration.score_filters),
                width_range: first_of(arguments.width_range, configuration.width_range),
                height_range: first_of(arguments.height_range, configuration.height_range),
            },
        ),
        None => None,
    }
}

/// The meaning of a plan that may be absent.
pub open spec fn plan_of(plan: Option<Plan>) -> Option<PlanView> {
    match plan {
        Some(p) => Some(p@),
        None => None,
    }
}

fn first<T>(preferred: Option<T>, fallback: Option<T>) -> (chosen: Option<T>)
    ensures
        chosen == first_of(preferred, fallback),
{
    match preferred {
        Some(value) => Some(value),
        None => fallback,
    }
}

impl Plan {
    /// Resolves arguments and configuration into the plan for listing nodes
    /// of one kind, or into `None` where neither names a root directory.
    pub fn resolve(node_type: NodeType, arguments: Arguments, configuration: Configuration) -> (plan:
        Option<Plan>)
        ensures
            plan_of(plan) == resolved_plan(node_type, arguments@, configuration@),
    {
        match first(arguments.directory, configuration.root_images_dir) {
            Some(root) => Some(
                Plan {
                    node_type,
                    root,
                    metadata_path: first(arguments.metadata_path, configuration.metadata_path),
                    score_filters: first(arguments.score_filters, configuration.score_filters),
                    width_range: first(arguments.width_range, configuration.width_range),
                    height_range: first(arguments.height_range, configuration.height_range),
                },
            ),
            None => None,
        }
    }
}

} // verus!
