use onon_render::pipeline_manager::PipelineManager;
use onon_render::render_resource::render_pipeline::PipelineType;

#[test]
fn new_manager_has_no_pipeline() {
    let manager: PipelineManager<u32> = PipelineManager::new();
    assert_eq!(manager.get_pipeline(PipelineType::Solid), None);
    assert_eq!(manager.get_pipeline(PipelineType::Wireframe), None);
}

#[test]
fn pipeline_is_found_under_its_type() {
    let mut manager = PipelineManager::new();
    manager.add_pipeline(PipelineType::Solid, String::from("solid"));
    assert_eq!(manager.get_pipeline(PipelineType::Solid), Some(&String::from("solid")));
    assert_eq!(manager.get_pipeline(PipelineType::Wireframe), None);
    manager.add_pipeline(PipelineType::Wireframe, String::from("wire"));
    assert_eq!(manager.get_pipeline(PipelineType::Solid), Some(&String::from("solid")));
    assert_eq!(manager.get_pipeline(PipelineType::Wireframe), Some(&String::from("wire")));
}

#[test]
fn adding_again_replaces_the_pipeline() {
    let mut manager = PipelineManager::new();
    manager.add_pipeline(PipelineType::Wireframe, 1u8);
    manager.add_pipeline(PipelineType::Wireframe, 2u8);
    assert_eq!(manager.get_pipeline(PipelineType::Wireframe), Some(&2));
    assert_eq!(manager.get_pipeline(PipelineType::Solid), None);
}

#[test]
fn pipeline_types_differ() {
    assert_ne!(PipelineType::Solid, PipelineType::Wireframe);
    assert_eq!(PipelineType::Solid, PipelineType::Solid);
}
