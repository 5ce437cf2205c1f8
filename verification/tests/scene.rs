use audionimbus::geometry::scene::SceneRegistry;

const SIMULATOR: u64 = 0x51;

fn no_locks() -> Vec<u64> {
    Vec::new()
}

#[test]
fn test_add_instanced_mesh_propagates_existing_simulator_registration() {
    let mut registry = SceneRegistry::new();
    let root_scene = registry.add_scene();
    let sub_scene = registry.add_scene();

    // The simulator takes the root scene.
    registry.register_simulator(root_scene, SIMULATOR, &no_locks(), 1);

    registry.add_instanced_mesh(root_scene, sub_scene);

    assert_eq!(registry.registration_ref_count(sub_scene, SIMULATOR), 1);
}

#[test]
fn test_shared_sub_scene_registration_ref_count_tracks_instances() {
    let mut registry = SceneRegistry::new();
    let root_scene = registry.add_scene();
    let shared_sub_scene = registry.add_scene();

    let first_handle = registry.add_instanced_mesh(root_scene, shared_sub_scene);
    let second_handle = registry.add_instanced_mesh(root_scene, shared_sub_scene);

    registry.commit(root_scene);

    registry.register_simulator(root_scene, SIMULATOR, &no_locks(), 1);

    assert_eq!(registry.registration_ref_count(shared_sub_scene, SIMULATOR), 2);

    assert!(registry.remove_instanced_mesh(root_scene, first_handle));
    assert_eq!(registry.registration_ref_count(shared_sub_scene, SIMULATOR), 2);

    registry.commit(root_scene);
    assert_eq!(registry.registration_ref_count(shared_sub_scene, SIMULATOR), 1);

    assert!(registry.remove_instanced_mesh(root_scene, second_handle));
    registry.commit(root_scene);
    assert_eq!(registry.registration_ref_count(shared_sub_scene, SIMULATOR), 0);
}

#[test]
fn test_simulator_commit_switches_scene_registrations_across_sub_scene_hierarchies() {
    let mut registry = SceneRegistry::new();

    let old_root_scene = registry.add_scene();
    let old_sub_scene = registry.add_scene();
    registry.add_instanced_mesh(old_root_scene, old_sub_scene);
    registry.commit(old_root_scene);

    let new_root_scene = registry.add_scene();
    let new_sub_scene = registry.add_scene();
    registry.add_instanced_mesh(new_root_scene, new_sub_scene);
    registry.commit(new_root_scene);

    // The simulator takes the old scene.
    registry.register_simulator(old_root_scene, SIMULATOR, &no_locks(), 1);
    assert_eq!(registry.registration_ref_count(old_root_scene, SIMULATOR), 1);
    assert_eq!(registry.registration_ref_count(old_sub_scene, SIMULATOR), 1);

    // The simulator takes the new scene; the old one stays registered until the
    // simulator commits.
    registry.register_simulator(new_root_scene, SIMULATOR, &no_locks(), 1);
    assert_eq!(registry.registration_ref_count(old_root_scene, SIMULATOR), 1);
    assert_eq!(registry.registration_ref_count(old_sub_scene, SIMULATOR), 1);
    assert_eq!(registry.registration_ref_count(new_root_scene, SIMULATOR), 1);
    assert_eq!(registry.registration_ref_count(new_sub_scene, SIMULATOR), 1);

    // The simulator commits: it lets go of the old scene.
    registry.unregister_simulator(old_root_scene, SIMULATOR, 1);
    assert_eq!(registry.registration_ref_count(old_root_scene, SIMULATOR), 0);
    assert_eq!(registry.registration_ref_count(old_sub_scene, SIMULATOR), 0);
    assert_eq!(registry.registration_ref_count(new_root_scene, SIMULATOR), 1);
    assert_eq!(registry.registration_ref_count(new_sub_scene, SIMULATOR), 1);
}

/// A diamond: the root holds `a` and `b`, and both hold `c`.
fn diamond(registry: &mut SceneRegistry) -> (usize, usize, usize, usize) {
    let root = registry.add_scene();
    let a = registry.add_scene();
    let b = registry.add_scene();
    let c = registry.add_scene();
    registry.add_instanced_mesh(root, a);
    registry.add_instanced_mesh(root, b);
    registry.add_instanced_mesh(a, c);
    registry.add_instanced_mesh(b, c);
    (root, a, b, c)
}

#[test]
fn registration_counts_paths_through_the_hierarchy() {
    let mut registry = SceneRegistry::new();
    let (root, a, b, c) = diamond(&mut registry);

    registry.register_simulator(root, SIMULATOR, &no_locks(), 3);

    assert_eq!(registry.registration_ref_count(root, SIMULATOR), 3);
    assert_eq!(registry.registration_ref_count(a, SIMULATOR), 3);
    assert_eq!(registry.registration_ref_count(b, SIMULATOR), 3);
    assert_eq!(registry.registration_ref_count(c, SIMULATOR), 6);
    assert_eq!(registry.registration_ref_count(c, SIMULATOR + 1), 0);
}

#[test]
fn unregistering_undoes_registering() {
    let mut registry = SceneRegistry::new();
    let (root, a, b, c) = diamond(&mut registry);
    let other = 0x99;

    registry.register_simulator(a, SIMULATOR, &no_locks(), 1);
    registry.register_simulator(root, other, &no_locks(), 1);

    registry.register_simulator(root, SIMULATOR, &no_locks(), 2);
    assert_eq!(registry.registration_ref_count(c, SIMULATOR), 5);
    registry.unregister_simulator(root, SIMULATOR, 2);

    assert_eq!(registry.registration_ref_count(root, SIMULATOR), 0);
    assert_eq!(registry.registration_ref_count(a, SIMULATOR), 1);
    assert_eq!(registry.registration_ref_count(b, SIMULATOR), 0);
    assert_eq!(registry.registration_ref_count(c, SIMULATOR), 1);
    assert_eq!(registry.registration_ref_count(c, other), 2);
}

#[test]
fn unregistering_stops_at_unregistered_scenes() {
    let mut registry = SceneRegistry::new();
    let (root, a, _b, c) = diamond(&mut registry);

    registry.register_simulator(c, SIMULATOR, &no_locks(), 1);
    registry.unregister_simulator(root, SIMULATOR, 1);
    assert_eq!(registry.registration_ref_count(c, SIMULATOR), 1);

    registry.unregister_simulator(a, SIMULATOR, 1);
    assert_eq!(registry.registration_ref_count(c, SIMULATOR), 1);

    registry.unregister_simulator(c, SIMULATOR, 5);
    assert_eq!(registry.registration_ref_count(c, SIMULATOR), 0);
}

#[test]
fn registering_zero_times_changes_nothing() {
    let mut registry = SceneRegistry::new();
    let (root, _a, _b, c) = diamond(&mut registry);
    registry.register_simulator(root, SIMULATOR, &no_locks(), 0);
    assert_eq!(registry.registration_ref_count(root, SIMULATOR), 0);
    assert_eq!(registry.registration_ref_count(c, SIMULATOR), 0);
}

#[test]
fn simulation_locks_are_sorted_and_distinct() {
    let mut registry = SceneRegistry::new();
    let scene = registry.add_scene();
    assert_eq!(registry.simulation_locks(scene), Vec::<u64>::new());

    registry.register_simulator(scene, 1, &vec![9, 3, 9], 1);
    registry.register_simulator(scene, 2, &vec![5, 3], 1);
    registry.register_simulator(scene, 3, &vec![1], 1);

    assert_eq!(registry.simulation_locks(scene), vec![1, 3, 5, 9]);
}

#[test]
fn registration_keeps_the_locks_it_was_created_with() {
    let mut registry = SceneRegistry::new();
    let scene = registry.add_scene();
    registry.register_simulator(scene, 1, &vec![4], 1);
    registry.register_simulator(scene, 1, &vec![8], 1);
    assert_eq!(registry.registration_ref_count(scene, 1), 2);
    assert_eq!(registry.simulation_locks(scene), vec![4]);

    registry.unregister_simulator(scene, 1, 2);
    assert_eq!(registry.simulation_locks(scene), Vec::<u64>::new());
}

#[test]
fn sub_scene_locks_come_from_the_registering_scene() {
    let mut registry = SceneRegistry::new();
    let root = registry.add_scene();
    let sub = registry.add_scene();
    registry.register_simulator(root, SIMULATOR, &vec![7, 2], 1);
    registry.add_instanced_mesh(root, sub);
    assert_eq!(registry.simulation_locks(sub), vec![2, 7]);
}

#[test]
fn static_meshes_are_removed_once() {
    let mut registry = SceneRegistry::new();
    let scene = registry.add_scene();
    let other = registry.add_scene();
    let handle = registry.add_static_mesh(scene, 42);
    let second = registry.add_static_mesh(scene, 43);
    assert_ne!(handle, second);

    assert!(registry.remove_static_mesh(scene, handle));
    assert!(!registry.remove_static_mesh(scene, handle));
    registry.commit(scene);
    assert!(!registry.remove_static_mesh(scene, handle));
    assert!(registry.remove_static_mesh(scene, second));
    assert!(!registry.remove_static_mesh(other, second));
}

#[test]
fn instanced_mesh_membership_follows_add_and_remove() {
    let mut registry = SceneRegistry::new();
    let scene = registry.add_scene();
    let sub = registry.add_scene();
    let handle = registry.add_instanced_mesh(scene, sub);
    assert!(registry.contains_instanced_mesh(scene, handle));
    assert!(!registry.contains_instanced_mesh(sub, handle));
    assert!(registry.remove_instanced_mesh(scene, handle));
    assert!(!registry.contains_instanced_mesh(scene, handle));
    assert!(!registry.remove_instanced_mesh(scene, handle));
}

#[test]
fn removed_instances_stay_children_until_commit() {
    let mut registry = SceneRegistry::new();
    let scene = registry.add_scene();
    let first = registry.add_scene();
    let second = registry.add_scene();
    let third = registry.add_scene();
    let h1 = registry.add_instanced_mesh(scene, first);
    registry.add_instanced_mesh(scene, second);
    registry.add_instanced_mesh(scene, third);
    assert_eq!(registry.sub_scenes(scene), vec![first as u64, second as u64, third as u64]);

    assert!(registry.remove_instanced_mesh(scene, h1));
    assert_eq!(registry.sub_scenes(scene), vec![second as u64, third as u64, first as u64]);

    registry.commit(scene);
    assert_eq!(registry.sub_scenes(scene), vec![second as u64, third as u64]);
}

#[test]
fn new_registry_scenes() {
    let mut registry = SceneRegistry::new();
    assert_eq!(registry.len(), 0);
    assert_eq!(registry.add_scene(), 0);
    assert_eq!(registry.add_scene(), 1);
    assert_eq!(registry.len(), 2);
    assert_eq!(registry.sub_scenes(1), Vec::<u64>::new());
}

#[test]
fn path_counts_follow_the_hierarchy() {
    let mut registry = SceneRegistry::new();
    let (root, a, _b, c) = diamond(&mut registry);
    assert_eq!(registry.path_counts(root), vec![1, 1, 1, 2]);
    assert_eq!(registry.path_counts(a), vec![0, 1, 0, 1]);
    assert_eq!(registry.path_counts(c), vec![0, 0, 0, 1]);
}

#[test]
fn can_register_detects_count_overflow() {
    let mut registry = SceneRegistry::new();
    let (root, a, _b, _c) = diamond(&mut registry);
    assert!(registry.can_register(root, SIMULATOR, usize::MAX / 2));
    assert!(!registry.can_register(root, SIMULATOR, usize::MAX / 2 + 1));
    assert!(registry.can_register(a, SIMULATOR, usize::MAX));
    registry.register_simulator(a, SIMULATOR, &no_locks(), 1);
    assert!(!registry.can_register(a, SIMULATOR, usize::MAX));
    assert!(registry.can_register(a, SIMULATOR, usize::MAX - 1));
    assert!(registry.can_register(root, SIMULATOR, 0));
}

#[test]
fn try_add_instanced_mesh_refuses_overflowing_counts() {
    let mut registry = SceneRegistry::new();
    let root = registry.add_scene();
    let sub = registry.add_scene();
    registry.register_simulator(root, SIMULATOR, &no_locks(), usize::MAX);

    let first = registry.try_add_instanced_mesh(root, sub);
    assert!(first.is_some());
    assert_eq!(registry.registration_ref_count(sub, SIMULATOR), usize::MAX);
    assert_eq!(registry.instanced_mesh_count(root), 1);

    assert_eq!(registry.try_add_instanced_mesh(root, sub), None);
    assert_eq!(registry.registration_ref_count(sub, SIMULATOR), usize::MAX);
    assert_eq!(registry.instanced_mesh_count(root), 1);
    assert_eq!(registry.sub_scenes(root), vec![sub as u64]);

    let other = registry.add_scene();
    assert!(registry.try_add_instanced_mesh(root, other).is_some());
    assert_eq!(registry.registration_ref_count(other, SIMULATOR), usize::MAX);
    assert_eq!(registry.instanced_mesh_count(root), 2);
}

#[test]
fn mesh_counts() {
    let mut registry = SceneRegistry::new();
    let scene = registry.add_scene();
    let sub = registry.add_scene();
    assert_eq!(registry.static_mesh_count(scene), 0);
    let h = registry.add_static_mesh(scene, 1);
    registry.add_static_mesh(scene, 2);
    assert_eq!(registry.static_mesh_count(scene), 2);
    registry.remove_static_mesh(scene, h);
    assert_eq!(registry.static_mesh_count(scene), 1);
    registry.add_instanced_mesh(scene, sub);
    assert_eq!(registry.instanced_mesh_count(scene), 1);
    assert_eq!(registry.instanced_mesh_count(sub), 0);
}

#[test]
fn cyclic_hierarchy_is_found_and_refused_for_registration() {
    let mut registry = SceneRegistry::new();
    let a = registry.add_scene();
    let b = registry.add_scene();
    let c = registry.add_scene();
    registry.add_instanced_mesh(a, b);
    assert!(!registry.has_long_walk(a));
    assert!(registry.can_register(a, SIMULATOR, 1));

    registry.add_instanced_mesh(b, a);
    assert!(registry.has_long_walk(a));
    assert!(registry.has_long_walk(b));
    assert!(!registry.has_long_walk(c));
    assert!(!registry.can_register(a, SIMULATOR, 1));
    assert!(registry.can_register(a, SIMULATOR, 0));
    assert!(registry.can_register(c, SIMULATOR, 1));

    let d = registry.add_scene();
    registry.add_instanced_mesh(d, d);
    assert!(registry.has_long_walk(d));
}

#[test]
fn instanced_mesh_closing_a_cycle_below_a_registered_scene_is_refused() {
    let mut registry = SceneRegistry::new();
    let root = registry.add_scene();
    let sub = registry.add_scene();
    registry.register_simulator(root, SIMULATOR, &no_locks(), 1);

    assert!(registry.try_add_instanced_mesh(root, sub).is_some());
    assert_eq!(registry.registration_ref_count(sub, SIMULATOR), 1);

    assert!(registry.try_add_instanced_mesh(sub, root).is_none());
    assert!(registry.try_add_instanced_mesh(root, root).is_none());
    assert_eq!(registry.instanced_mesh_count(sub), 0);
    assert_eq!(registry.instanced_mesh_count(root), 1);
    assert!(!registry.has_long_walk(root));

    // A scene that no simulator takes may instance itself.
    let free = registry.add_scene();
    assert!(registry.try_add_instanced_mesh(free, free).is_some());
    assert_eq!(registry.registration_ref_count(free, SIMULATOR), 0);
}

#[test]
fn unregister_after_register_on_a_shared_sub_scene_drops_every_reference() {
    let mut registry = SceneRegistry::new();
    let root = registry.add_scene();
    let left = registry.add_scene();
    let right = registry.add_scene();
    let shared = registry.add_scene();
    registry.add_instanced_mesh(root, left);
    registry.add_instanced_mesh(root, right);
    registry.add_instanced_mesh(left, shared);
    registry.add_instanced_mesh(right, shared);

    registry.register_simulator(root, SIMULATOR, &no_locks(), 2);
    assert_eq!(registry.registration_ref_count(shared, SIMULATOR), 4);
    assert_eq!(registry.registration_ref_count(left, SIMULATOR), 2);

    registry.unregister_simulator(root, SIMULATOR, 2);
    for scene in [root, left, right, shared] {
        assert_eq!(registry.registration_ref_count(scene, SIMULATOR), 0);
    }
}
