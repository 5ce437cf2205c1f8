use audionimbus::channels::ChannelRequirement;
use audionimbus::effect::ambisonics::{
    check_ambisonics_binaural_apply, check_ambisonics_binaural_tail, AmbisonicsDecodeEffectChannels,
    AmbisonicsEncodeEffectChannels, AmbisonicsEncodeEffectSettings, AmbisonicsPanningEffectChannels,
    AmbisonicsPanningEffectParams, AmbisonicsPanningEffectSettings, AmbisonicsRotationEffectChannels,
    AmbisonicsRotationEffectSettings, Rendering, SpeakerLayout,
};
use audionimbus::effect::direct::{DirectEffectChannels, DirectEffectSettings};
use audionimbus::effect::pathing::PathEffectChannels;
use audionimbus::effect::reflections::{
    Convolution, Parametric, ReflectionEffectChannels, ReflectionEffectSettings,
};
use audionimbus::effect::virtual_surround::VirtualSurroundEffectChannels;
use audionimbus::effect::{EffectError, PanningEffectChannels, PanningEffectSettings};

type Layout = SpeakerLayout<[f32; 3]>;

fn input_error(expected: ChannelRequirement, actual: u32) -> Result<(), EffectError> {
    Err(EffectError::InvalidInputChannels { expected, actual })
}

fn output_error(expected: ChannelRequirement, actual: u32) -> Result<(), EffectError> {
    Err(EffectError::InvalidOutputChannels { expected, actual })
}

fn order_error(order: u32, buffer_channels: u32, required_channels: u32) -> Result<(), EffectError> {
    Err(EffectError::InvalidAmbisonicOrder { order, buffer_channels, required_channels })
}

// Ambisonics binaural effect.

#[test]
fn binaural_test_valid_first_order() {
    assert!(check_ambisonics_binaural_apply(1, 4, 2).is_ok());
}

#[test]
fn binaural_test_invalid_input_channels() {
    assert_eq!(check_ambisonics_binaural_apply(1, 3, 2), input_error(ChannelRequirement::Exactly(4), 3));
}

#[test]
fn binaural_test_invalid_output_channels() {
    assert_eq!(check_ambisonics_binaural_apply(1, 4, 3), output_error(ChannelRequirement::Exactly(2), 3));
    assert_eq!(check_ambisonics_binaural_tail(3), output_error(ChannelRequirement::Exactly(2), 3));
}

#[test]
fn binaural_test_valid() {
    assert!(check_ambisonics_binaural_tail(2).is_ok());
}

#[test]
fn binaural_checks_input_before_output() {
    assert_eq!(check_ambisonics_binaural_apply(2, 4, 1), input_error(ChannelRequirement::Exactly(9), 4));
    assert!(check_ambisonics_binaural_apply(0, 1, 2).is_ok());
}

// Ambisonics decode effect.

fn stereo_binaural_decoder() -> AmbisonicsDecodeEffectChannels {
    AmbisonicsDecodeEffectChannels::new(&Layout::Stereo, 1, Rendering::Binaural)
}

#[test]
fn test_valid_first_order_binaural() {
    assert!(stereo_binaural_decoder().check_apply(1, 4, 2).is_ok());
}

#[test]
fn test_valid_first_order_panning() {
    let decoder = AmbisonicsDecodeEffectChannels::new(&Layout::Surround7_1, 1, Rendering::Panning);
    assert!(decoder.check_apply(1, 4, 8).is_ok());
}

#[test]
fn test_valid_invalid_input_channels() {
    assert_eq!(stereo_binaural_decoder().check_apply(1, 2, 2), order_error(1, 2, 4));
}

#[test]
fn test_valid_invalid_output_channels() {
    assert_eq!(
        stereo_binaural_decoder().check_apply(1, 4, 3),
        output_error(ChannelRequirement::Exactly(2), 3)
    );
}

#[test]
fn decode_test_valid() {
    assert!(stereo_binaural_decoder().check_tail(2).is_ok());
}

#[test]
fn decode_test_invalid_output_channels() {
    assert_eq!(stereo_binaural_decoder().check_tail(4), output_error(ChannelRequirement::Exactly(2), 4));
}

#[test]
fn decode_output_channels_follow_rendering() {
    let custom = Layout::Custom { speaker_directions: vec![[0.0; 3]; 5] };
    assert_eq!(AmbisonicsDecodeEffectChannels::new(&custom, 2, Rendering::Panning).num_output_channels, 5);
    assert_eq!(AmbisonicsDecodeEffectChannels::new(&custom, 2, Rendering::Binaural).num_output_channels, 2);
    let decoder = AmbisonicsDecodeEffectChannels::new(&custom, 2, Rendering::Panning);
    assert_eq!(decoder.check_apply(1, 4, 5), order_error(1, 4, 9));
    assert!(decoder.check_apply(1, 9, 5).is_ok());
}

// Ambisonics encode effect.

fn first_order_encoder() -> AmbisonicsEncodeEffectChannels {
    AmbisonicsEncodeEffectChannels::new(&AmbisonicsEncodeEffectSettings { max_order: 1 })
}

#[test]
fn encode_test_valid_first_order() {
    assert!(first_order_encoder().check_apply(1, 4).is_ok());
}

#[test]
fn encode_test_invalid_input_channels() {
    assert_eq!(first_order_encoder().check_apply(2, 4), input_error(ChannelRequirement::Exactly(1), 2));
}

#[test]
fn encode_test_invalid_output_channels() {
    assert_eq!(first_order_encoder().check_apply(1, 2), order_error(1, 2, 4));
    assert_eq!(first_order_encoder().check_tail(2), order_error(1, 2, 4));
}

#[test]
fn encode_test_valid() {
    assert!(first_order_encoder().check_tail(4).is_ok());
}

// Ambisonics panning effect.

fn stereo_ambisonics_panner() -> AmbisonicsPanningEffectChannels {
    AmbisonicsPanningEffectChannels::new(&AmbisonicsPanningEffectSettings {
        speaker_layout: Layout::Stereo,
        max_order: 1,
    })
}

#[test]
fn panning_test_valid_first_order() {
    let params = AmbisonicsPanningEffectParams { order: 1 };
    assert!(stereo_ambisonics_panner().check_apply(&params, 4, 2).is_ok());
}

#[test]
fn panning_test_invalid_input_channels() {
    let params = AmbisonicsPanningEffectParams { order: 1 };
    assert_eq!(
        stereo_ambisonics_panner().check_apply(&params, 2, 2),
        input_error(ChannelRequirement::Exactly(4), 2)
    );
    assert_eq!(stereo_panner().check_apply(2, 2), input_error(ChannelRequirement::Exactly(1), 2));
}

#[test]
fn panning_test_invalid_output_channels() {
    let params = AmbisonicsPanningEffectParams { order: 1 };
    assert_eq!(
        stereo_ambisonics_panner().check_apply(&params, 4, 3),
        output_error(ChannelRequirement::Exactly(2), 3)
    );
    assert_eq!(stereo_ambisonics_panner().check_tail(3), output_error(ChannelRequirement::Exactly(2), 3));
    assert_eq!(stereo_panner().check_apply(1, 4), output_error(ChannelRequirement::Exactly(2), 4));
    assert_eq!(stereo_panner().check_tail(4), output_error(ChannelRequirement::Exactly(2), 4));
}

#[test]
fn panning_test_valid() {
    assert!(stereo_ambisonics_panner().check_tail(2).is_ok());
    assert!(stereo_panner().check_tail(2).is_ok());
}

// Ambisonics rotation effect.

fn first_order_rotator() -> AmbisonicsRotationEffectChannels {
    AmbisonicsRotationEffectChannels::new(&AmbisonicsRotationEffectSettings { max_order: 1 })
}

#[test]
fn rotation_test_valid_first_order() {
    assert!(first_order_rotator().check_apply(4, 4).is_ok());
}

#[test]
fn rotation_test_invalid_input_channels() {
    assert_eq!(first_order_rotator().check_apply(2, 4), input_error(ChannelRequirement::Exactly(4), 2));
}

#[test]
fn rotation_test_invalid_output_channels() {
    assert_eq!(first_order_rotator().check_apply(4, 3), output_error(ChannelRequirement::Exactly(4), 3));
    assert_eq!(first_order_rotator().check_tail(2), output_error(ChannelRequirement::Exactly(4), 2));
}

#[test]
fn rotation_test_valid() {
    assert!(first_order_rotator().check_tail(4).is_ok());
}

// Direct effect.

fn mono_direct_effect() -> DirectEffectChannels {
    DirectEffectChannels::new(&DirectEffectSettings { num_channels: 1 })
}

#[test]
fn direct_test_valid() {
    assert!(mono_direct_effect().check_apply(1, 1).is_ok());
    assert!(mono_direct_effect().check_tail(1).is_ok());
}

#[test]
fn direct_test_invalid_input_num_channels() {
    assert_eq!(mono_direct_effect().check_apply(4, 1), input_error(ChannelRequirement::Exactly(1), 4));
}

#[test]
fn direct_test_invalid_output_num_channels() {
    assert_eq!(mono_direct_effect().check_apply(1, 4), output_error(ChannelRequirement::Exactly(1), 4));
    assert_eq!(mono_direct_effect().check_tail(2), output_error(ChannelRequirement::Exactly(1), 2));
}

// Panning effect.

fn stereo_panner() -> PanningEffectChannels {
    PanningEffectChannels::new(&PanningEffectSettings { speaker_layout: Layout::Stereo })
}

#[test]
fn panning_test_valid_stereo() {
    assert!(stereo_panner().check_apply(1, 2).is_ok());
}

#[test]
fn test_valid_surround_5_1() {
    let panner = PanningEffectChannels::new(&PanningEffectSettings { speaker_layout: Layout::Surround5_1 });
    assert!(panner.check_apply(1, 6).is_ok());
}

// Path effect.

fn first_order_path_effect() -> PathEffectChannels {
    PathEffectChannels::new(1)
}

#[test]
fn pathing_test_valid() {
    assert!(first_order_path_effect().check_apply(1, 4).is_ok());
    assert!(first_order_path_effect().check_tail(4).is_ok());
}

#[test]
fn pathing_test_invalid_input_num_channels() {
    assert_eq!(first_order_path_effect().check_apply(2, 4), input_error(ChannelRequirement::Exactly(1), 2));
}

#[test]
fn pathing_test_invalid_output_num_channels() {
    assert_eq!(
        first_order_path_effect().check_apply(1, 2),
        output_error(ChannelRequirement::Exactly(4), 2)
    );
    assert_eq!(first_order_path_effect().check_tail(2), output_error(ChannelRequirement::Exactly(4), 2));
}

// Reflection effect and mixer.

fn first_order_convolution() -> ReflectionEffectChannels {
    ReflectionEffectChannels::new::<Convolution>(&ReflectionEffectSettings {
        impulse_response_size: 2 * 48000,
        num_channels: 4,
    })
}

#[test]
fn reflections_test_valid() {
    let effect = first_order_convolution();
    assert!(effect.check_apply(1, 4).is_ok());
    assert!(effect.check_tail(4).is_ok());
}

#[test]
fn reflections_test_invalid_input_num_channels() {
    assert_eq!(first_order_convolution().check_apply(2, 4), input_error(ChannelRequirement::Exactly(1), 2));
}

#[test]
fn reflections_test_invalid_output_num_channels() {
    let effect = first_order_convolution();
    assert_eq!(effect.check_apply(1, 2), output_error(ChannelRequirement::Exactly(4), 2));
    assert_eq!(effect.check_tail(1), output_error(ChannelRequirement::Exactly(4), 1));
    assert_eq!(effect.check_tail(2), output_error(ChannelRequirement::Exactly(4), 2));
}

#[test]
fn test_parametric_valid() {
    assert!(first_order_convolution().check_tail(4).is_ok());
}

#[test]
fn test_parametric_at_least_one_channel() {
    let mixer = ReflectionEffectChannels::new::<Parametric>(&ReflectionEffectSettings {
        impulse_response_size: 2 * 48000,
        num_channels: 4,
    });
    assert_eq!(mixer.num_output_channels, ChannelRequirement::AtLeast(1));
    assert!(mixer.check_tail(1).is_ok());
    assert!(mixer.check_tail(7).is_ok());
    assert_eq!(mixer.check_tail(0), output_error(ChannelRequirement::AtLeast(1), 0));
}

// Virtual surround effect.

#[test]
fn virtual_surround_test_valid_stereo() {
    assert!(VirtualSurroundEffectChannels::new(&Layout::Stereo).check_apply(2, 2).is_ok());
}

#[test]
fn test_valid_surround_7_1() {
    assert!(VirtualSurroundEffectChannels::new(&Layout::Surround7_1).check_apply(8, 2).is_ok());
}

#[test]
fn virtual_surround_test_invalid_input_channels() {
    assert_eq!(
        VirtualSurroundEffectChannels::new(&Layout::Surround5_1).check_apply(2, 2),
        input_error(ChannelRequirement::Exactly(6), 2)
    );
}

#[test]
fn virtual_surround_test_invalid_output_channels() {
    let effect = VirtualSurroundEffectChannels::new(&Layout::Stereo);
    assert_eq!(effect.check_apply(2, 4), output_error(ChannelRequirement::Exactly(2), 4));
    assert_eq!(effect.check_tail(4), output_error(ChannelRequirement::Exactly(2), 4));
}

#[test]
fn virtual_surround_test_valid() {
    assert!(VirtualSurroundEffectChannels::new(&Layout::Stereo).check_tail(2).is_ok());
}
