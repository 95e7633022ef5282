use doom_fire::container_size::ContainerSize;

#[test]
fn container_class_names() {
    assert_eq!(ContainerSize::Normal.to_class(), "container");
    assert_eq!(ContainerSize::Small.to_class(), "container-sm");
    assert_eq!(ContainerSize::Medium.to_class(), "container-md");
    assert_eq!(ContainerSize::Large.to_class(), "container-lg");
    assert_eq!(ContainerSize::ExtraLarge.to_class(), "container-xl");
    assert_eq!(ContainerSize::Fluid.to_class(), "container-fluid");
}

#[test]
fn the_default_container_is_normal() {
    assert_eq!(ContainerSize::default(), ContainerSize::Normal);
    assert_eq!(ContainerSize::default().to_class(), "container");
}
