use image_filter::candidates::{
    select_by_presence, select_directories, select_images, Entry, FileType,
};
use image_filter::dimensions::{Dimensions, Range};
use image_filter::error::PipelineError;
use image_filter::metadata::ImageMeta;
use image_filter::pipeline::{
    process_args, process_only_dirs, process_only_images, Listing, Step,
};
use image_filter::score::{Comparator, Score, ScoreFilter};
use image_filter::settings::{Arguments, Configuration, NodeType, Plan};
use image_filter::store::MetadataStore;

/// What the tests put in the place of the file system.
struct World {
    directory_exists: bool,
    entries: Vec<(&'static str, FileType)>,
    sizes: Vec<(&'static str, u64, u64)>,
    metadata: Result<Vec<(&'static str, Option<f64>)>, &'static str>,
    checked: Vec<String>,
    walked: Vec<String>,
    probed: Vec<String>,
    loaded: Vec<String>,
}

fn world() -> World {
    World {
        directory_exists: true,
        entries: vec![
            ("root", FileType::Directory),
            ("root/a.png", FileType::File),
            ("root/b.jpg", FileType::File),
            ("root/c.txt", FileType::File),
        ],
        sizes: vec![("root/a.png", 500, 300), ("root/b.jpg", 100, 100)],
        metadata: Ok(vec![("root/a.png", Some(8.2)), ("root/b.jpg", Some(3.0))]),
        checked: Vec::new(),
        walked: Vec::new(),
        probed: Vec::new(),
        loaded: Vec::new(),
    }
}

fn arguments() -> Arguments {
    Arguments {
        generate_config: false,
        node_type: NodeType::Image,
        directory: Some("root".to_string()),
        metadata_path: None,
        score_filters: None,
        width_range: None,
        height_range: None,
    }
}

fn configuration() -> Configuration {
    Configuration {
        root_images_dir: None,
        metadata_path: None,
        score_filters: None,
        width_range: None,
        height_range: None,
    }
}

fn score(value: f64) -> Score {
    Score::from_bits(value.to_bits())
}

fn filter(operator: Comparator, threshold: f64) -> ScoreFilter {
    ScoreFilter { operator, threshold: score(threshold) }
}

fn run(step: Step, world: &mut World) -> Step {
    let mut step = step;
    loop {
        step = match step {
            Step::CheckDirectory(check) => {
                world.checked.push(check.root().clone());
                check.resume(world.directory_exists)
            }
            Step::Walk(traversal) => {
                world.walked.push(traversal.root().clone());
                let entries = world
                    .entries
                    .iter()
                    .map(|(path, file_type)| Entry { path: path.to_string(), file_type: *file_type })
                    .collect();
                traversal.resume(entries)
            }
            Step::Probe(probing) => {
                let path = probing.path().clone();
                let dims = world
                    .sizes
                    .iter()
                    .find(|(name, _, _)| *name == path)
                    .map(|(_, width, height)| Dimensions { width: *width, height: *height });
                world.probed.push(path);
                probing.resume(dims)
            }
            Step::LoadMetadata(loading) => {
                world.loaded.push(loading.path().clone());
                let records = match &world.metadata {
                    Ok(records) => Ok(records
                        .iter()
                        .map(|(path, value)| ImageMeta {
                            path: path.to_string(),
                            score: value.map(score),
                        })
                        .collect()),
                    Err(cause) => Err(cause.to_string()),
                };
                loading.resume(records)
            }
            last => return last,
        };
    }
}

fn listing(step: Step) -> Listing {
    match step {
        Step::Emit(listing) => listing,
        other => panic!("no listing: {other:?}"),
    }
}

fn error(step: Step) -> PipelineError {
    match step {
        Step::Fail(error) => error,
        other => panic!("no error: {other:?}"),
    }
}

#[test]
fn images_are_filtered_by_extension_then_by_width() {
    let mut world = world();
    let mut arguments = arguments();
    arguments.width_range = Some(Range { min: Some(200), max: Some(1000) });
    let listed = listing(run(process_args(arguments, configuration()), &mut world));
    assert_eq!(listed.paths, vec!["root/a.png"]);
    assert!(listed.unannotated.is_empty());
    assert_eq!(world.probed, vec!["root/a.png", "root/b.jpg"]);
    assert!(world.loaded.is_empty());
}

#[test]
fn images_are_filtered_by_score() {
    let mut world = world();
    let mut arguments = arguments();
    arguments.score_filters = Some(vec![filter(Comparator::GreaterOrEqual, 5.0)]);
    arguments.metadata_path = Some("meta.toml".to_string());
    let listed = listing(run(process_args(arguments, configuration()), &mut world));
    assert_eq!(listed.paths, vec!["root/a.png"]);
    assert!(listed.unannotated.is_empty());
    assert!(world.probed.is_empty());
    assert_eq!(world.loaded, vec!["meta.toml"]);
}

#[test]
fn score_filters_without_metadata_source_fail() {
    let mut world = world();
    let mut arguments = arguments();
    arguments.score_filters = Some(vec![filter(Comparator::GreaterOrEqual, 5.0)]);
    let failed = error(run(process_args(arguments, configuration()), &mut world));
    assert!(matches!(failed, PipelineError::MissingMetadataSource));
    assert_eq!(failed.message(), "No metadata file provided!");
    assert!(world.loaded.is_empty());
}

#[test]
fn without_filters_every_image_is_listed_in_traversal_order() {
    let mut world = world();
    world.entries = vec![
        ("root/z.webp", FileType::File),
        ("root/sub", FileType::Directory),
        ("root/sub/m.GIF", FileType::File),
        ("root/a.txt", FileType::File),
        ("root/a.jpeg", FileType::File),
        ("root/b.PNG", FileType::Other),
    ];
    let listed = listing(run(process_args(arguments(), configuration()), &mut world));
    assert_eq!(listed.paths, vec!["root/z.webp", "root/sub/m.GIF", "root/a.jpeg", "root/b.PNG"]);
    assert!(world.probed.is_empty());
    assert!(world.loaded.is_empty());
    assert_eq!(world.checked, vec!["root"]);
    assert_eq!(world.walked, vec!["root"]);
}

#[test]
fn an_entry_named_like_an_image_is_a_candidate_whatever_its_kind() {
    let mut world = world();
    world.entries = vec![("root/album.png", FileType::Directory)];
    let listed = listing(run(process_args(arguments(), configuration()), &mut world));
    assert_eq!(listed.paths, vec!["root/album.png"]);
}

#[test]
fn an_image_that_cannot_be_probed_is_excluded_under_any_range() {
    let mut world = world();
    world.sizes = vec![("root/a.png", 500, 300)];
    let mut arguments = arguments();
    arguments.height_range = Some(Range { min: None, max: None });
    let listed = listing(run(process_args(arguments, configuration()), &mut world));
    assert_eq!(listed.paths, vec!["root/a.png"]);
    assert_eq!(world.probed, vec!["root/a.png", "root/b.jpg"]);
}

#[test]
fn width_and_height_ranges_must_both_pass() {
    let mut world = world();
    world.entries.push(("root/d.gif", FileType::File));
    world.sizes.push(("root/d.gif", 500, 50));
    let mut arguments = arguments();
    arguments.width_range = Some(Range { min: Some(200), max: None });
    arguments.height_range = Some(Range { min: Some(100), max: Some(300) });
    let listed = listing(run(process_args(arguments, configuration()), &mut world));
    assert_eq!(listed.paths, vec!["root/a.png"]);
}

#[test]
fn dimension_and_score_filters_combine() {
    let mut world = world();
    world.entries.push(("root/d.gif", FileType::File));
    world.sizes.push(("root/d.gif", 100, 100));
    world.metadata = Ok(vec![
        ("root/a.png", Some(8.2)),
        ("root/b.jpg", Some(3.0)),
        ("root/d.gif", Some(9.9)),
    ]);
    let mut arguments = arguments();
    arguments.width_range = Some(Range { min: Some(200), max: Some(1000) });
    arguments.score_filters = Some(vec![filter(Comparator::GreaterOrEqual, 5.0)]);
    arguments.metadata_path = Some("meta.toml".to_string());
    let listed = listing(run(process_args(arguments, configuration()), &mut world));
    assert_eq!(listed.paths, vec!["root/a.png"]);
    assert!(listed.unannotated.is_empty());
}

#[test]
fn several_score_filters_are_conjunctive() {
    let mut world = world();
    world.entries.push(("root/d.gif", FileType::File));
    world.metadata = Ok(vec![
        ("root/a.png", Some(8.2)),
        ("root/b.jpg", Some(3.0)),
        ("root/d.gif", Some(9.9)),
    ]);
    let mut arguments = arguments();
    arguments.score_filters =
        Some(vec![filter(Comparator::Greater, 3.0), filter(Comparator::LessOrEqual, 9.0)]);
    arguments.metadata_path = Some("meta.toml".to_string());
    let listed = listing(run(process_args(arguments, configuration()), &mut world));
    assert_eq!(listed.paths, vec!["root/a.png"]);
}

#[test]
fn the_same_score_filter_twice_changes_nothing() {
    let once = {
        let mut arguments = arguments();
        arguments.score_filters = Some(vec![filter(Comparator::GreaterOrEqual, 5.0)]);
        arguments.metadata_path = Some("meta.toml".to_string());
        listing(run(process_args(arguments, configuration()), &mut world()))
    };
    let twice = {
        let mut arguments = arguments();
        arguments.score_filters = Some(vec![
            filter(Comparator::GreaterOrEqual, 5.0),
            filter(Comparator::GreaterOrEqual, 5.0),
        ]);
        arguments.metadata_path = Some("meta.toml".to_string());
        listing(run(process_args(arguments, configuration()), &mut world()))
    };
    assert_eq!(once.paths, vec!["root/a.png"]);
    assert_eq!(twice.paths, once.paths);
    assert_eq!(twice.unannotated, once.unannotated);
}

#[test]
fn an_image_without_metadata_is_reported_and_not_listed() {
    let mut world = world();
    world.entries.push(("root/d.gif", FileType::File));
    world.metadata = Ok(vec![("root/b.jpg", Some(3.0)), ("elsewhere/x.png", Some(9.0))]);
    let mut arguments = arguments();
    arguments.score_filters = Some(vec![filter(Comparator::Less, 100.0)]);
    arguments.metadata_path = Some("meta.toml".to_string());
    let listed = listing(run(process_args(arguments, configuration()), &mut world));
    assert_eq!(listed.paths, vec!["root/b.jpg"]);
    assert_eq!(listed.unannotated, vec!["root/a.png", "root/d.gif"]);
}

#[test]
fn an_image_whose_record_has_no_score_is_not_listed_and_not_reported() {
    let mut world = world();
    world.metadata = Ok(vec![("root/a.png", None), ("root/b.jpg", Some(f64::NAN))]);
    let mut arguments = arguments();
    arguments.score_filters = Some(vec![filter(Comparator::Less, f64::INFINITY)]);
    arguments.metadata_path = Some("meta.toml".to_string());
    let listed = listing(run(process_args(arguments, configuration()), &mut world));
    assert!(listed.paths.is_empty());
    assert!(listed.unannotated.is_empty());
}

#[test]
fn an_empty_list_of_score_filters_still_requires_metadata() {
    let mut world = world();
    world.metadata = Ok(vec![("root/b.jpg", None)]);
    let mut arguments = arguments();
    arguments.score_filters = Some(Vec::new());
    let failed = error(run(process_args(arguments, configuration()), &mut world));
    assert!(matches!(failed, PipelineError::MissingMetadataSource));

    let mut arguments = self::arguments();
    arguments.score_filters = Some(Vec::new());
    arguments.metadata_path = Some("meta.toml".to_string());
    let listed = listing(run(process_args(arguments, configuration()), &mut world));
    assert_eq!(listed.paths, vec!["root/b.jpg"]);
    assert_eq!(listed.unannotated, vec!["root/a.png"]);
}

#[test]
fn of_two_records_for_a_path_the_later_one_decides() {
    let mut world = world();
    world.metadata = Ok(vec![
        ("root/a.png", Some(8.2)),
        ("root/b.jpg", Some(3.0)),
        ("root/a.png", Some(1.0)),
        ("root/b.jpg", Some(7.0)),
    ]);
    let mut arguments = arguments();
    arguments.score_filters = Some(vec![filter(Comparator::GreaterOrEqual, 5.0)]);
    arguments.metadata_path = Some("meta.toml".to_string());
    let listed = listing(run(process_args(arguments, configuration()), &mut world));
    assert_eq!(listed.paths, vec!["root/b.jpg"]);
}

#[test]
fn a_metadata_file_that_cannot_be_loaded_fails_the_run() {
    let mut world = world();
    world.metadata = Err("expected a table");
    let mut arguments = arguments();
    arguments.score_filters = Some(vec![filter(Comparator::GreaterOrEqual, 5.0)]);
    arguments.metadata_path = Some("meta.toml".to_string());
    let failed = error(run(process_args(arguments, configuration()), &mut world));
    match &failed {
        PipelineError::MetadataLoadError { path, cause } => {
            assert_eq!(path, "meta.toml");
            assert_eq!(cause, "expected a table");
        }
        other => panic!("another error: {other:?}"),
    }
    assert_eq!(failed.message(), "could not load metadata from meta.toml: expected a table");
}

#[test]
fn a_missing_root_directory_fails_the_run_before_anything_else() {
    let mut world = world();
    world.directory_exists = false;
    let mut arguments = arguments();
    arguments.directory = Some("nowhere".to_string());
    arguments.score_filters = Some(vec![filter(Comparator::GreaterOrEqual, 5.0)]);
    arguments.width_range = Some(Range { min: Some(1), max: None });
    let failed = error(run(process_args(arguments, configuration()), &mut world));
    match &failed {
        PipelineError::MissingDirectory { path } => assert_eq!(path, "nowhere"),
        other => panic!("another error: {other:?}"),
    }
    assert_eq!(failed.message(), "could not find directory: nowhere");
    assert_eq!(world.checked, vec!["nowhere"]);
    assert!(world.walked.is_empty());
    assert!(world.probed.is_empty());
    assert!(world.loaded.is_empty());
}

#[test]
fn a_run_without_root_directory_fails_at_once() {
    let mut world = world();
    let mut arguments = arguments();
    arguments.directory = None;
    let failed = error(run(process_args(arguments, configuration()), &mut world));
    assert!(matches!(failed, PipelineError::ConfigError));
    assert_eq!(failed.message(), "root directory must be specified");
    assert!(world.checked.is_empty());
}

#[test]
fn an_argument_takes_precedence_over_the_configuration() {
    let mut world = world();
    let mut arguments = arguments();
    arguments.directory = Some("from-arguments".to_string());
    arguments.metadata_path = Some("arguments.toml".to_string());
    arguments.score_filters = Some(vec![filter(Comparator::GreaterOrEqual, 5.0)]);
    arguments.width_range = Some(Range { min: Some(200), max: None });
    let mut configuration = configuration();
    configuration.root_images_dir = Some("from-configuration".to_string());
    configuration.metadata_path = Some("configuration.toml".to_string());
    configuration.score_filters = Some(vec![filter(Comparator::Less, 5.0)]);
    configuration.width_range = Some(Range { min: None, max: Some(150) });
    configuration.height_range = Some(Range { min: None, max: Some(100) });
    world.entries = vec![("a.png", FileType::File), ("b.jpg", FileType::File)];
    world.sizes = vec![("a.png", 500, 100), ("b.jpg", 100, 100)];
    world.metadata = Ok(vec![("a.png", Some(8.2)), ("b.jpg", Some(3.0))]);
    let listed = listing(run(process_args(arguments, configuration), &mut world));
    assert_eq!(listed.paths, vec!["a.png"]);
    assert_eq!(world.checked, vec!["from-arguments"]);
    assert_eq!(world.walked, vec!["from-arguments"]);
    assert_eq!(world.loaded, vec!["arguments.toml"]);
}

#[test]
fn the_configuration_is_the_fallback() {
    let mut world = world();
    let mut arguments = arguments();
    arguments.directory = None;
    let mut configuration = configuration();
    configuration.root_images_dir = Some("from-configuration".to_string());
    configuration.metadata_path = Some("configuration.toml".to_string());
    configuration.score_filters = Some(vec![filter(Comparator::Less, 5.0)]);
    configuration.width_range = Some(Range { min: None, max: Some(150) });
    configuration.height_range = Some(Range { min: None, max: Some(100) });
    world.entries = vec![("a.png", FileType::File), ("b.jpg", FileType::File)];
    world.sizes = vec![("a.png", 500, 100), ("b.jpg", 100, 100)];
    world.metadata = Ok(vec![("a.png", Some(8.2)), ("b.jpg", Some(3.0))]);
    let listed = listing(run(process_args(arguments, configuration), &mut world));
    assert_eq!(listed.paths, vec!["b.jpg"]);
    assert_eq!(world.checked, vec!["from-configuration"]);
    assert_eq!(world.loaded, vec!["configuration.toml"]);
}

#[test]
fn no_image_matching_is_an_empty_listing_and_no_error() {
    let mut world = world();
    world.entries = vec![("root/c.txt", FileType::File)];
    let mut arguments = arguments();
    arguments.width_range = Some(Range { min: Some(1), max: None });
    let listed = listing(run(process_args(arguments, configuration()), &mut world));
    assert!(listed.paths.is_empty());
    assert!(world.probed.is_empty());
}

#[test]
fn asking_for_the_default_configuration_ends_the_run() {
    let mut world = world();
    let mut arguments = arguments();
    arguments.generate_config = true;
    arguments.directory = None;
    let last = run(process_args(arguments, configuration()), &mut world);
    assert!(matches!(last, Step::PrintDefaultConfiguration));
    assert!(world.checked.is_empty());
}

#[test]
fn a_run_for_directories_lists_the_directories() {
    let mut world = world();
    world.entries = vec![
        ("root", FileType::Directory),
        ("root/a.png", FileType::File),
        ("root/sub", FileType::Directory),
        ("root/sub/link", FileType::Other),
        ("root/sub/deep.png", FileType::Directory),
    ];
    let mut arguments = arguments();
    arguments.node_type = NodeType::Directory;
    arguments.width_range = Some(Range { min: Some(1), max: None });
    arguments.score_filters = Some(vec![filter(Comparator::Less, 1.0)]);
    let listed = listing(run(process_args(arguments, configuration()), &mut world));
    assert_eq!(listed.paths, vec!["root", "root/sub", "root/sub/deep.png"]);
    assert!(listed.unannotated.is_empty());
    assert!(world.probed.is_empty());
    assert!(world.loaded.is_empty());
}

#[test]
fn a_run_for_directories_needs_a_root_that_exists() {
    let mut arguments = arguments();
    arguments.directory = None;
    let failed = error(process_only_dirs(arguments, configuration()));
    assert!(matches!(failed, PipelineError::ConfigError));

    let mut world = world();
    world.directory_exists = false;
    let failed = error(run(process_only_dirs(self::arguments(), configuration()), &mut world));
    assert!(matches!(failed, PipelineError::MissingDirectory { .. }));
}

#[test]
fn the_two_kinds_of_run_can_be_begun_directly() {
    let mut world = world();
    let mut arguments = arguments();
    arguments.node_type = NodeType::Image;
    let listed = listing(run(process_only_dirs(arguments, configuration()), &mut world));
    assert_eq!(listed.paths, vec!["root"]);

    let mut arguments = self::arguments();
    arguments.node_type = NodeType::Directory;
    let listed = listing(run(process_only_images(arguments, configuration()), &mut world));
    assert_eq!(listed.paths, vec!["root/a.png", "root/b.jpg"]);
}

#[test]
fn a_plan_takes_each_setting_from_the_first_that_gives_it() {
    let mut arguments = arguments();
    arguments.directory = None;
    arguments.height_range = Some(Range { min: Some(3), max: Some(4) });
    let mut configuration = configuration();
    configuration.root_images_dir = Some("pictures".to_string());
    configuration.height_range = Some(Range { min: None, max: None });
    configuration.metadata_path = Some("meta.toml".to_string());
    let plan = Plan::resolve(NodeType::Image, arguments, configuration).expect("a plan");
    assert_eq!(plan.node_type, NodeType::Image);
    assert_eq!(plan.root, "pictures");
    assert_eq!(plan.metadata_path.as_deref(), Some("meta.toml"));
    assert!(plan.score_filters.is_none());
    assert_eq!(plan.width_range, None);
    assert_eq!(plan.height_range, Some(Range { min: Some(3), max: Some(4) }));
    assert!(Plan::resolve(NodeType::Image, self::arguments(), self::configuration()).is_some());
    let mut rootless = self::arguments();
    rootless.directory = None;
    assert!(Plan::resolve(NodeType::Directory, rootless, self::configuration()).is_none());
}

#[test]
fn the_selections_keep_the_order_of_the_entries() {
    let entries: Vec<Entry> = [
        ("z.png", FileType::File),
        ("d1", FileType::Directory),
        ("a.txt", FileType::File),
        ("a.gif", FileType::Other),
        ("d0.jpg", FileType::Directory),
    ]
    .iter()
    .map(|(path, file_type)| Entry { path: path.to_string(), file_type: *file_type })
    .collect();
    assert_eq!(select_images(&entries), vec!["z.png", "a.gif", "d0.jpg"]);
    assert_eq!(select_directories(&entries), vec!["d1", "d0.jpg"]);
    assert!(select_images(&Vec::new()).is_empty());
}

#[test]
fn paths_are_selected_by_presence_in_the_store() {
    let store = MetadataStore::from_records(vec![
        ImageMeta { path: "b.jpg".to_string(), score: None },
        ImageMeta { path: "a.png".to_string(), score: Some(score(1.0)) },
    ]);
    let paths: Vec<String> =
        ["a.png", "x.png", "b.jpg", "a.png", "y.gif"].iter().map(|p| p.to_string()).collect();
    assert_eq!(select_by_presence(&paths, &store, true), vec!["a.png", "b.jpg", "a.png"]);
    assert_eq!(select_by_presence(&paths, &store, false), vec!["x.png", "y.gif"]);
}
