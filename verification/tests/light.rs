use all_is_cubes::block::{Block, Rgba};
use all_is_cubes::light::{LightStatus, PackedLight, Rgb};
use all_is_cubes::math::GridPoint;
use all_is_cubes::space::{LightPhysics, Space, SpacePhysics};

#[test]
fn light_fully_open_cell_sees_whole_sky() {
    let mut space = Space::empty_positive(1, 1, 1);
    let sky = space.physics().sky_color;
    // A fresh store is born settled: all six rays escape the 1x1x1 grid at
    // once, so the cell holds the full sky color with nothing pending.
    assert_eq!(
        space.get_lighting(GridPoint::new(0, 0, 0)),
        PackedLight::valued(sky)
    );
    assert_eq!(space.evaluate_light(0), 0);
}

#[test]
fn light_opaque_cell_is_dark() {
    let opaque = Block::from_color(Rgba::new(80, 80, 80, 255));
    let mut space = Space::empty_positive(1, 1, 1);
    let p = GridPoint::new(0, 0, 0);
    space.set(p, &opaque).unwrap();
    space.evaluate_light(0);
    assert_eq!(space.get_lighting(p), PackedLight::opaque());
}

#[test]
fn light_blocked_rays_scale_the_sky() {
    // A 3x1x1 corridor: the center cell sees sky through four side rays and
    // along one open axis end; block one end and recompute.
    let opaque = Block::from_color(Rgba::new(80, 80, 80, 255));
    let mut space = Space::empty_positive(3, 1, 1);
    let sky = space.physics().sky_color;
    space.evaluate_light(0);
    let center = GridPoint::new(1, 0, 0);
    assert_eq!(space.get_lighting(center), PackedLight::valued(sky));
    space.set(GridPoint::new(0, 0, 0), &opaque).unwrap();
    space.evaluate_light(0);
    // Five of six rays now escape: each channel is scaled by 5/6.
    let expected = Rgb::new(
        ((5 * sky.red as u32) / 6) as u8,
        ((5 * sky.green as u32) / 6) as u8,
        ((5 * sky.blue as u32) / 6) as u8,
    );
    assert_eq!(space.get_lighting(center), PackedLight::valued(expected));
}

/// Applying the same non-adjacent edits in two different orders and running
/// the light evaluation to completion produces identical light data.
#[test]
fn light_convergence_determinism() {
    let a = Block::from_color(Rgba::new(10, 0, 0, 255));
    let b = Block::from_color(Rgba::new(0, 10, 0, 255));
    let edits = [
        (GridPoint::new(0, 0, 0), a.clone()),
        (GridPoint::new(2, 2, 2), b.clone()),
        (GridPoint::new(0, 2, 0), a.clone()),
    ];

    let mut first = Space::empty_positive(3, 3, 3);
    for (p, block) in edits.iter() {
        first.set(*p, block).unwrap();
    }
    first.evaluate_light(0);

    let mut second = Space::empty_positive(3, 3, 3);
    for (p, block) in edits.iter().rev() {
        second.set(*p, block).unwrap();
    }
    second.evaluate_light(0);

    for x in 0..3 {
        for y in 0..3 {
            for z in 0..3 {
                let p = GridPoint::new(x, y, z);
                assert_eq!(first.get_lighting(p), second.get_lighting(p), "at {:?}", p);
            }
        }
    }
}

#[test]
fn step_respects_budget() {
    let mut space = Space::empty_positive(2, 2, 2);
    // A fresh store has nothing pending.
    let info = space.step(10);
    assert_eq!(info.spaces, 1);
    assert_eq!(info.light.update_count, 0);
    assert_eq!(info.light.queue_count, 0);
    // An opaque block is set dark at once and not queued; its three in-grid
    // axis neighbors are queued.
    let opaque = Block::from_color(Rgba::new(80, 80, 80, 255));
    space.set(GridPoint::new(0, 0, 0), &opaque).unwrap();
    let info = space.step(1);
    assert_eq!(info.light.update_count, 1);
    assert_eq!(info.light.queue_count, 2);
    let info = space.step(100);
    assert_eq!(info.light.update_count, 2);
    assert_eq!(info.light.queue_count, 0);
}

#[test]
fn disabled_light_reports_white() {
    let mut space = Space::empty_positive(1, 1, 1);
    space.set_physics(SpacePhysics::default_for_block());
    assert_eq!(space.physics().light, LightPhysics::Disabled);
    assert_eq!(
        space.get_lighting(GridPoint::new(0, 0, 0)),
        PackedLight::valued(Rgb::new(255, 255, 255))
    );
    let info = space.step(10);
    assert_eq!(info.light.update_count, 0);
}

#[test]
fn out_of_bounds_lighting_is_sky() {
    let mut space = Space::empty_positive(1, 1, 1);
    let sky = space.physics().sky_color;
    assert_eq!(
        space.get_lighting(GridPoint::new(50, 0, 0)),
        PackedLight::valued(sky)
    );
    space.evaluate_light(0);
    assert_eq!(
        space.get_lighting(GridPoint::new(50, 0, 0)),
        PackedLight::valued(sky)
    );
}

#[test]
fn evaluate_light_reports_passes() {
    let mut space = Space::empty_positive(2, 1, 1);
    // A translucent block queues the changed cell and its in-grid neighbor.
    let tinted = Block::from_color(Rgba::new(40, 40, 40, 100));
    space.set(GridPoint::new(0, 0, 0), &tinted).unwrap();
    let passes = space.evaluate_light_passes(0);
    // At least one drain pass is reported, and the last one shows the
    // drained queue.
    assert!(!passes.is_empty());
    assert_eq!(passes.last().unwrap().queue_count, 0);
    let total: usize = passes.iter().map(|info| info.update_count).sum();
    assert_eq!(total, 2);
    // Nothing left: one further pass reports no work.
    let passes = space.evaluate_light_passes(0);
    assert_eq!(passes.last().unwrap().update_count, 0);
}

#[test]
fn packed_light_encodings() {
    assert_eq!(PackedLight::opaque().status, LightStatus::Opaque);
    assert_eq!(PackedLight::opaque().value, Rgb::new(0, 0, 0));
    assert_eq!(PackedLight::uninitialized().status, LightStatus::Uninitialized);
    let v = PackedLight::valued(Rgb::new(1, 2, 3));
    assert_eq!(v.status, LightStatus::Valued);
    assert_eq!(v.value, Rgb::new(1, 2, 3));
}
