use fractal_renderer::shader::pipeline::{dispatch_size, workgroup_count, WORKGROUP_SIZE};

#[test]
fn workgroup_size_is_eight() {
    assert_eq!(WORKGROUP_SIZE, 8);
}

#[test]
fn workgroup_count_rounds_up() {
    assert_eq!(workgroup_count(0), 0);
    assert_eq!(workgroup_count(1), 1);
    assert_eq!(workgroup_count(7), 1);
    assert_eq!(workgroup_count(8), 1);
    assert_eq!(workgroup_count(9), 2);
    assert_eq!(workgroup_count(16), 2);
    assert_eq!(workgroup_count(17), 3);
    assert_eq!(workgroup_count(1920), 240);
    assert_eq!(workgroup_count(1080), 135);
    assert_eq!(workgroup_count(1081), 136);
}

#[test]
fn workgroup_count_does_not_overflow() {
    assert_eq!(workgroup_count(u32::MAX), 536_870_912);
    assert_eq!(workgroup_count(u32::MAX - 7), 536_870_911);
    assert_eq!(workgroup_count(u32::MAX - 6), 536_870_912);
}

#[test]
fn workgroup_count_is_the_rounded_up_quotient() {
    for extent in 0u32..4096 {
        assert_eq!(workgroup_count(extent), (extent + 8 - 1) / 8, "{extent}");
    }
}

#[test]
fn workgroups_cover_and_none_is_empty() {
    for extent in 1u32..2000 {
        let count = workgroup_count(extent) as u64;
        assert!(count * 8 >= extent as u64);
        assert!((count - 1) * 8 < extent as u64);
    }
}

#[test]
fn dispatch_size_covers_a_texture() {
    assert_eq!(dispatch_size(1024, 768), (128, 96, 1));
    assert_eq!(dispatch_size(1025, 769), (129, 97, 1));
    assert_eq!(dispatch_size(4, 4), (1, 1, 1));
    assert_eq!(dispatch_size(0, 0), (0, 0, 1));
}
