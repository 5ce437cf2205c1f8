# audionimbus

The decision-making core of a safe Steam Audio binding, with machine-checked contracts and proofs.

- `src/` is the verified library: status-code mapping, the channel-count checks that
  guard every audio effect, static mesh validation, the flags of direct effect
  parameters, index checks of energy fields, impulse responses and OpenCL device
  lists, error messages, and the scene registry, which tracks the meshes of every
  scene and the reference counts with which simulators are registered through the
  hierarchy of instanced meshes.
- `src/geometry/scene.rs` also states and proves the laws of that registry:
  unregistering undoes registering, and committing a scene after removing an
  instanced mesh drops exactly the references that adding it brought.
- `tests/` exercises the library on concrete values.
- `app/` holds what calls into Steam Audio itself (`audionimbus-sys`): object
  creation and release, conversions to the C types, and the `Display`/`Error` impls.
