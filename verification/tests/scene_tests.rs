use skwd_paper::extent::scene_presenter_layout;
use skwd_paper::scene::{
    classify_effect_target_bytes, ordered_scene_quads, plan_scratch_layout, scene_swap_duration,
    validate_pipeline_skip, validate_scene_skips, EffectTargetBytes, FxTargetClass,
    FxTargetStorage, Interned, QuadRef, TextureInterner, TextureKey,
};
use std::collections::HashMap;

fn texture_key(rgba: &[u8], clamp: bool, nearest: bool) -> TextureKey {
    TextureKey { width: 2, height: 1, rgba: rgba.to_vec(), clamp, nearest }
}

#[test]
fn texture_interning_uses_exact_payload_and_sampler_identity() {
    let base = texture_key(&[1, 2, 3, 4, 5, 6, 7, 8], true, false);
    let mut slots = HashMap::new();
    slots.insert(base, 7);

    assert_eq!(slots.get(&texture_key(&[1, 2, 3, 4, 5, 6, 7, 8], true, false)), Some(&7));
    let mut wrong_dimensions = texture_key(&[1, 2, 3, 4, 5, 6, 7, 8], true, false);
    wrong_dimensions.width = 1;
    wrong_dimensions.height = 2;
    assert_eq!(slots.get(&wrong_dimensions), None);
    assert_eq!(slots.get(&texture_key(&[1, 2, 3, 4, 5, 6, 7, 9], true, false)), None);
    assert_eq!(slots.get(&texture_key(&[1, 2, 3, 4, 5, 6, 7, 8], false, false)), None);
    assert_eq!(slots.get(&texture_key(&[1, 2, 3, 4, 5, 6, 7, 8], true, true)), None);
}

#[test]
fn interner_reuses_only_identical_textures() {
    let mut interner = TextureInterner::new();
    let Interned::Upload(key) = interner.intern_key(texture_key(&[1, 2, 3, 4, 5, 6, 7, 8], true, false)) else {
        panic!("a new texture must be uploaded");
    };
    interner.record(key, 7);
    assert!(matches!(
        interner.intern_key(texture_key(&[1, 2, 3, 4, 5, 6, 7, 8], true, false)),
        Interned::Reused(7)
    ));
    assert_eq!(interner.reused(), 1);
    assert_eq!(interner.reused_bytes(), 8);
    assert!(matches!(
        interner.intern_key(texture_key(&[1, 2, 3, 4, 5, 6, 7, 9], true, false)),
        Interned::Upload(_)
    ));
    assert!(matches!(
        interner.intern_key(texture_key(&[1, 2, 3, 4, 5, 6, 7, 8], true, true)),
        Interned::Upload(_)
    ));
    interner.record(texture_key(&[1, 2, 3, 4, 5, 6, 7, 8], true, false), 9);
    assert!(matches!(
        interner.intern_key(texture_key(&[1, 2, 3, 4, 5, 6, 7, 8], true, false)),
        Interned::Reused(9)
    ));
    assert_eq!(interner.reused(), 2);
}

#[test]
fn scene_swap_transition_never_inherits_a_previous_duration() {
    assert_eq!(scene_swap_duration(0), None);
    assert_eq!(scene_swap_duration(40), Some(80));
    assert_eq!(scene_swap_duration(600), Some(600));
    assert_eq!(scene_swap_duration(8000), Some(4000));
}

#[test]
fn every_output_owns_an_independent_scene_presenter() {
    let outputs = [(2560, 1440), (1920, 1080), (3840, 2160)];
    let (shared, shared_indices) = scene_presenter_layout(&outputs, (3440, 1440), true);
    assert_eq!(shared, [(3440, 1440), (3440, 1440), (3440, 1440)]);
    assert_eq!(shared_indices, [0, 1, 2]);

    let (native, native_indices) = scene_presenter_layout(&outputs, (3440, 1440), false);
    assert_eq!(native, outputs);
    assert_eq!(native_indices, [0, 1, 2]);
}

#[test]
fn effect_target_accounting_retains_only_the_selected_output() {
    // Ping is target 0, pong target 1, named targets follow from 2.
    let ping_output = classify_effect_target_bytes(&[64, 64, 16, 8], 0).unwrap();
    assert_eq!(ping_output, EffectTargetBytes { retained: 64, transient: 88 });

    let named_output = classify_effect_target_bytes(&[64, 64, 16, 8], 1 + 2).unwrap();
    assert_eq!(named_output, EffectTargetBytes { retained: 8, transient: 144 });
}

#[test]
fn effect_target_accounting_rejects_an_unknown_named_output() {
    assert_eq!(classify_effect_target_bytes(&[64, 64, 16], 1 + 2), None);
}

#[test]
fn scratch_layout_reuses_only_compatible_cross_layer_targets() {
    let full = FxTargetClass { width: 1920, height: 1080, repeat: false };
    let half = FxTargetClass { width: 960, height: 540, repeat: false };
    let repeating = FxTargetClass { repeat: true, ..full };

    let layout = plan_scratch_layout(&[vec![full, full, half], vec![full, half], vec![repeating]]);

    // Targets in one layer never alias even when their image class matches.
    assert_ne!(layout.assignments[0][0], layout.assignments[0][1]);
    // Sequential layers reuse matching scratch slots.
    assert_eq!(layout.assignments[1][0], layout.assignments[0][0]);
    assert_eq!(layout.assignments[1][1], layout.assignments[0][2]);
    // Sampler addressing is part of compatibility.
    assert_ne!(layout.assignments[2][0], layout.assignments[0][0]);
    assert_eq!(layout.physical_classes.len(), 4);
}

#[test]
fn scratch_slots_hold_their_targets_class() {
    let a = FxTargetClass::of(64, 64, false);
    let b = FxTargetClass::of(32, 32, false);
    let layout = plan_scratch_layout(&[vec![a, b, a], vec![b, b, a]]);
    assert_eq!(layout.assignments, [vec![0, 1, 2], vec![1, 3, 0]]);
    assert_eq!(layout.physical_classes, [a, b, a, b]);
}

#[test]
fn full_frame_prefix_merges_lower_particles_in_unified_order() {
    let images = [10, 30];
    let particles = [20];
    let texture = |quad: &QuadRef| match *quad {
        QuadRef::Image(index) => images[index],
        QuadRef::Particle(index) => particles[index],
    };

    let prefix = ordered_scene_quads(images.len(), &[0, 2], &[1], Some(2));
    assert_eq!(prefix.iter().map(texture).collect::<Vec<_>>(), [10, 20]);
    let full = ordered_scene_quads(images.len(), &[0, 2], &[1], None);
    assert_eq!(full.iter().map(texture).collect::<Vec<_>>(), [10, 20, 30]);
}

#[test]
fn unified_order_sorts_images_and_particles_stably() {
    let full = ordered_scene_quads(2, &[0, 2], &[1], None);
    assert_eq!(full, [QuadRef::Image(0), QuadRef::Particle(0), QuadRef::Image(1)]);
    let prefix = ordered_scene_quads(2, &[0, 2], &[1], Some(2));
    assert_eq!(prefix, [QuadRef::Image(0), QuadRef::Particle(0)]);
}

#[test]
fn equal_orders_keep_serial_order_with_images_first() {
    let ordered = ordered_scene_quads(3, &[5, 5, 5], &[5, 5], None);
    assert_eq!(
        ordered,
        [
            QuadRef::Image(0),
            QuadRef::Image(1),
            QuadRef::Image(2),
            QuadRef::Particle(0),
            QuadRef::Particle(1)
        ]
    );
    // With earlier images filtered out, particle serials start after the
    // drawn images and may tie with a later image's serial.
    let filtered = ordered_scene_quads(3, &[9, 9, 1], &[1], Some(5));
    assert_eq!(filtered, [QuadRef::Particle(0), QuadRef::Image(2)]);
}

#[test]
fn strict_startup_rejects_any_scene_loader_skip() {
    let skipped = vec![
        "layer: unsupported object".to_string(),
        "layer: effect material unavailable".to_string(),
    ];

    assert!(validate_scene_skips(false, &skipped).is_ok());
    let error = validate_scene_skips(true, &skipped).unwrap_err().message();
    assert!(error.contains("2 skipped element(s)"));
    assert!(error.contains("unsupported object"));
    assert!(error.contains("effect material unavailable"));
    assert!(validate_scene_skips(true, &[]).is_ok());
}

#[test]
fn strict_startup_quotes_at_most_four_skips() {
    let skipped: Vec<String> = (0..6).map(|i| format!("skip {i}")).collect();
    let error = validate_scene_skips(true, &skipped).unwrap_err().message();
    assert_eq!(
        error,
        "strict native scene startup rejected 6 skipped element(s): skip 0; skip 1; skip 2; skip 3"
    );
}

#[test]
fn strict_startup_rejects_pipeline_fallback_but_best_effort_accepts_it() {
    assert!(validate_pipeline_skip(false, "clock", "shader compile failed").is_ok());
    let error =
        validate_pipeline_skip(true, "clock", "shader compile failed").unwrap_err().message();
    assert!(error.contains("effect pipeline on clock"));
    assert!(error.contains("shader compile failed"));
}

#[test]
fn target_storage_resolves_owned_and_shared_targets() {
    let shared = ["scratch0", "scratch1"];
    let owned = FxTargetStorage::Owned("own");
    let borrowed: FxTargetStorage<&str> = FxTargetStorage::Shared(1);
    assert_eq!(*owned.get(&shared), "own");
    assert_eq!(*borrowed.get(&shared), "scratch1");
    assert_eq!(owned.owned(), Some(&"own"));
    assert_eq!(borrowed.owned(), None);

    let mut storage = FxTargetStorage::Owned("own");
    assert_eq!(storage.take_owned(), Some("own"));
    assert!(matches!(storage, FxTargetStorage::Released));
    assert_eq!(storage.take_owned(), None);
    let mut shared_storage: FxTargetStorage<&str> = FxTargetStorage::Shared(0);
    assert_eq!(shared_storage.take_owned(), None);
    assert!(matches!(shared_storage, FxTargetStorage::Shared(0)));
}
