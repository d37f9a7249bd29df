use thomson::force::{Particle, WEIGHT_UNIT};
use thomson::particles::ParticleSet;
use thomson::scene::{icbrt, SceneMode, SceneStyle};
use thomson::vector::Vec3;

fn three() -> ParticleSet {
    let ps = vec![
        Particle { position: Vec3 { x: 12_345_000, y: -20_000_000, z: 5_000 }, weight: WEIGHT_UNIT },
        Particle { position: Vec3 { x: 0, y: 0, z: 20_000_000 }, weight: 8 * WEIGHT_UNIT },
        Particle { position: Vec3 { x: -1_000, y: 7_000, z: -123_456_000 }, weight: 27 * WEIGHT_UNIT },
    ];
    ParticleSet::from_particles(ps).unwrap()
}

fn style() -> SceneStyle {
    SceneStyle { base_radius: 9_000_000, shell_offset: 2_000_000, resolution: 30 }
}

fn text(set: &ParticleSet, mode: SceneMode) -> String {
    String::from_utf8(set.scene_text(mode, &style())).unwrap()
}

#[test]
fn cube_root() {
    assert_eq!(icbrt(0), 0);
    assert_eq!(icbrt(26), 2);
    assert_eq!(icbrt(27), 3);
    assert_eq!(icbrt(1_000_000_000), 1000);
}

#[test]
fn solid_scene_has_one_sphere_per_particle() {
    let t = text(&three(), SceneMode::Solid);
    assert_eq!(t.matches("sphere(").count(), 3);
    let expected = "union() {\n\
translate([1.2345000,-2.0000000,0.0005000]) { sphere(0.9000000, $fn=30); };\n\
translate([0.0000000,0.0000000,2.0000000]) { sphere(1.8000000, $fn=30); };\n\
translate([-0.0001000,0.0007000,-12.3456000]) { sphere(2.7000000, $fn=30); };\n\
}\n";
    assert_eq!(t, expected);
}

#[test]
fn shell_scene_has_two_spheres_per_particle() {
    let t = text(&three(), SceneMode::Shell);
    assert_eq!(t.matches("sphere(").count(), 6);
    assert!(t.starts_with("difference() { union() {\ntranslate(["));
    assert_eq!(t.lines().count(), 2 * 3 + 3);
    assert_eq!(t.matches("}; union() {\n").count(), 1);
    assert!(t.contains("translate([1.2345000,-2.0000000,0.0005000]) { sphere(0.9000000, $fn=30); };\n"));
    assert!(t.contains("translate([1.2345000,-2.0000000,0.0005000]) { sphere(0.7000000, $fn=30); };\n"));
    assert!(t.contains("translate([-0.0001000,0.0007000,-12.3456000]) { sphere(2.5000000, $fn=30); };\n"));
    assert!(t.ends_with("$fn=30); };\n}; };\n"));
}

#[test]
fn shell_radius_does_not_go_negative() {
    let ps = vec![Particle { position: Vec3 { x: 0, y: 0, z: 0 }, weight: 1 }];
    let set = ParticleSet::from_particles(ps).unwrap();
    let t = String::from_utf8(set.scene_text(SceneMode::Shell, &style())).unwrap();
    // weight 0.001 gives radius 0.09, below the offset of 0.2.
    assert!(t.contains("sphere(0.0900000, $fn=30)"));
    assert!(t.contains("sphere(0.0000000, $fn=30)"));
}

#[test]
fn scene_text_is_reproducible() {
    let set = three();
    assert_eq!(set.scene_text(SceneMode::Shell, &style()), set.scene_text(SceneMode::Shell, &style()));
}
