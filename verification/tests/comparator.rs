use basalto::comparator::TemporalComparator;

#[test]
fn previous_execution_of_the_same_shape() {
    let mut c = TemporalComparator::new();
    c.record_execution("h1", "stencil", "f32", &[64, 64], 1);
    c.record_execution("h2", "stencil", "f32", &[64, 64], 2);
    c.record_execution("x9", "stencil", "f32", &[32], 3);
    assert_eq!(c.get_previous_execution("stencil", "f32", &[64, 64], "h2"), Some("h1".to_string()));
    assert_eq!(c.get_previous_execution("stencil", "f32", &[64, 64], "h1"), None);
    assert_eq!(c.get_previous_execution("stencil", "f32", &[32], "x9"), None);
    assert_eq!(c.get_previous_execution("stencil", "f64", &[64, 64], "h2"), None);
    assert_eq!(c.get_previous_execution("stencil", "f32", &[64, 64], "zz"), None);
}

#[test]
fn first_occurrence_decides() {
    let mut c = TemporalComparator::new();
    c.record_execution("a", "op", "f32", &[1], 0);
    c.record_execution("b", "op", "f32", &[1], 0);
    c.record_execution("c", "op", "f32", &[1], 0);
    c.record_execution("b", "op", "f32", &[1], 0);
    assert_eq!(c.get_previous_execution("op", "f32", &[1], "b"), Some("a".to_string()));
    assert_eq!(c.get_previous_execution("op", "f32", &[1], "c"), Some("b".to_string()));
}
