use audionimbus::channels::{num_ambisonics_channels, ChannelRequirement};
use audionimbus::device::open_cl::{check_device_index, OpenClDeviceListError};
use audionimbus::effect::ambisonics::ambisonics_encode_effect::{required_num_channels, AmbisonicsEncodeEffectParams};
use audionimbus::effect::ambisonics::SpeakerLayout;
use audionimbus::effect::direct::{
    direct_effect_flags, direct_effect_parts, DirectEffectParts, TransmissionType, APPLY_AIR_ABSORPTION, APPLY_DIRECTIVITY,
    APPLY_DISTANCE_ATTENUATION, APPLY_OCCLUSION, APPLY_TRANSMISSION,
};
use audionimbus::effect::error::{EffectError, ImpulseResponseSizeExceedsMaxError, NumChannelsExceedsMaxError};
use audionimbus::effect::reflection::{ReflectionEffectSettings, ReflectionEffectType};
use audionimbus::effect::reflections::{Convolution, Hybrid, Parametric, ReflectionEffectType as _, TrueAudioNext};
use audionimbus::energy_field::{self, check_band_index, EnergyFieldError, NUM_BANDS};
use audionimbus::error::{to_option_error, StatusCode, SteamAudioError};
use audionimbus::ffi_wrapper::FFIWrapper;
use audionimbus::geometry::Matrix;
use audionimbus::impulse_response::{self, ImpulseResponseError};
use audionimbus::model::DeviationModel;

#[test]
fn status_codes_map_to_errors() {
    assert_eq!(to_option_error(StatusCode::Success), None);
    assert_eq!(to_option_error(StatusCode::Failure), Some(SteamAudioError::Unspecified));
    assert_eq!(to_option_error(StatusCode::OutOfMemory), Some(SteamAudioError::OutOfMemory));
    assert_eq!(to_option_error(StatusCode::Initialization), Some(SteamAudioError::Initialization));
}

#[test]
fn steam_audio_error_messages() {
    assert_eq!(SteamAudioError::Unspecified.message(), "unspecified error");
    assert_eq!(SteamAudioError::OutOfMemory.message(), "out of memory");
    assert_eq!(
        SteamAudioError::Initialization.message(),
        "error while initializing an external dependency"
    );
}

#[test]
fn channel_requirements() {
    assert!(ChannelRequirement::Exactly(2).is_satisfied_by(2));
    assert!(!ChannelRequirement::Exactly(2).is_satisfied_by(3));
    assert!(!ChannelRequirement::Exactly(2).is_satisfied_by(1));
    assert!(ChannelRequirement::AtLeast(1).is_satisfied_by(1));
    assert!(ChannelRequirement::AtLeast(1).is_satisfied_by(16));
    assert!(!ChannelRequirement::AtLeast(1).is_satisfied_by(0));
}

#[test]
fn ambisonics_channel_counts() {
    assert_eq!(num_ambisonics_channels(0), 1);
    assert_eq!(num_ambisonics_channels(1), 4);
    assert_eq!(num_ambisonics_channels(2), 9);
    assert_eq!(num_ambisonics_channels(3), 16);
    assert_eq!(num_ambisonics_channels(65534), 65535 * 65535);
    let params = AmbisonicsEncodeEffectParams { direction: [0.0f32, 0.0, 1.0], order: 3 };
    assert_eq!(required_num_channels(&params), 16);
}

#[test]
fn speaker_layouts() {
    type Layout = SpeakerLayout<[f32; 3]>;
    assert_eq!(Layout::Mono.num_channels(), 1);
    assert_eq!(Layout::Stereo.num_channels(), 2);
    assert_eq!(Layout::Quadraphonic.num_channels(), 4);
    assert_eq!(Layout::Surround5_1.num_channels(), 6);
    assert_eq!(Layout::Surround7_1.num_channels(), 8);
    let custom = Layout::Custom { speaker_directions: vec![[1.0, 0.0, 0.0]; 3] };
    assert_eq!(custom.num_channels(), 3);

    assert_eq!(Layout::Mono.name(), "mono");
    assert_eq!(Layout::Stereo.name(), "stereo");
    assert_eq!(Layout::Quadraphonic.name(), "quadraphonic");
    assert_eq!(Layout::Surround5_1.name(), "5.1");
    assert_eq!(Layout::Surround7_1.name(), "7.1");
    assert_eq!(custom.name(), "custom");

    assert_eq!(Layout::Surround7_1.display_string(), "7.1");
    assert_eq!(custom.display_string(), "custom (3 channels)");
    let wide = Layout::Custom { speaker_directions: vec![[0.0, 1.0, 0.0]; 12] };
    assert_eq!(wide.display_string(), "custom (12 channels)");
}

#[test]
fn ffi_wrapper_round_trip() {
    let wrapper: FFIWrapper<'_, u64, ()> = FFIWrapper::new(17);
    assert_eq!(*wrapper, 17);
    assert_eq!(wrapper.into_inner(), 17);
}

#[test]
fn matrix_keeps_its_elements() {
    let m = Matrix::new([[1.0f32, 2.0], [3.0, 4.0], [5.0, 6.0]]);
    assert_eq!(m.elements, [[1.0, 2.0], [3.0, 4.0], [5.0, 6.0]]);
}

#[test]
fn direct_effect_flags_follow_given_parts() {
    let none = DirectEffectParts {
        distance_attenuation: false,
        air_absorption: false,
        directivity: false,
        occlusion: false,
        transmission: None,
    };
    assert_eq!(direct_effect_flags(&none), (0, TransmissionType::FrequencyIndependent));

    let all = DirectEffectParts {
        distance_attenuation: true,
        air_absorption: true,
        directivity: true,
        occlusion: true,
        transmission: Some(TransmissionType::FrequencyDependent),
    };
    assert_eq!(direct_effect_flags(&all), (31, TransmissionType::FrequencyDependent));

    let some = DirectEffectParts { air_absorption: true, occlusion: true, ..none };
    assert_eq!(direct_effect_flags(&some), (APPLY_AIR_ABSORPTION | APPLY_OCCLUSION, TransmissionType::FrequencyIndependent));

    let (flags, kind) = direct_effect_flags(&DirectEffectParts {
        distance_attenuation: true,
        directivity: true,
        transmission: Some(TransmissionType::FrequencyIndependent),
        ..none
    });
    assert_eq!(flags, APPLY_DISTANCE_ATTENUATION | APPLY_DIRECTIVITY | APPLY_TRANSMISSION);
    assert_eq!(kind, TransmissionType::FrequencyIndependent);
}

#[test]
fn direct_effect_parts_follow_flags() {
    let none = direct_effect_parts(0, TransmissionType::FrequencyDependent);
    assert_eq!(
        none,
        DirectEffectParts {
            distance_attenuation: false,
            air_absorption: false,
            directivity: false,
            occlusion: false,
            transmission: None,
        }
    );

    let all = direct_effect_parts(31, TransmissionType::FrequencyDependent);
    assert_eq!(
        all,
        DirectEffectParts {
            distance_attenuation: true,
            air_absorption: true,
            directivity: true,
            occlusion: true,
            transmission: Some(TransmissionType::FrequencyDependent),
        }
    );

    let some = direct_effect_parts(APPLY_OCCLUSION | APPLY_TRANSMISSION, TransmissionType::FrequencyIndependent);
    assert_eq!(
        some,
        DirectEffectParts {
            distance_attenuation: false,
            air_absorption: false,
            directivity: false,
            occlusion: true,
            transmission: Some(TransmissionType::FrequencyIndependent),
        }
    );

    // Bits that name no part are ignored.
    assert_eq!(direct_effect_parts(32 | APPLY_DIRECTIVITY, TransmissionType::FrequencyDependent).directivity, true);
    assert_eq!(direct_effect_parts(0xffff_ffe0, TransmissionType::FrequencyDependent), none);
}

#[test]
fn direct_effect_parts_read_back_direct_effect_flags() {
    let parts = DirectEffectParts {
        distance_attenuation: true,
        air_absorption: false,
        directivity: true,
        occlusion: false,
        transmission: Some(TransmissionType::FrequencyDependent),
    };
    let (flags, kind) = direct_effect_flags(&parts);
    assert_eq!(direct_effect_parts(flags, kind), parts);
    let (flags, kind) = direct_effect_flags(&direct_effect_parts(21, TransmissionType::FrequencyIndependent));
    assert_eq!((flags, kind), (21, TransmissionType::FrequencyIndependent));
}

#[test]
fn effect_error_messages() {
    assert_eq!(
        EffectError::InvalidInputChannels { expected: ChannelRequirement::Exactly(2), actual: 1 }.message(),
        "invalid number of input channels: expected 2, got 1"
    );
    assert_eq!(
        EffectError::InvalidOutputChannels { expected: ChannelRequirement::AtLeast(1), actual: 0 }.message(),
        "invalid number of output channels: expected at least 1, got 0"
    );
    assert_eq!(
        EffectError::InvalidAmbisonicOrder { order: 1, buffer_channels: 2, required_channels: 4 }.message(),
        "invalid Ambisonic order 1: the buffer has 2 channels, the order requires 4"
    );
}

#[test]
fn reflection_settings_parts() {
    assert_eq!(
        ReflectionEffectSettings::Convolution { impulse_response_size: 96000, num_channels: 4 }.parts(),
        (ReflectionEffectType::Convolution, 96000, 4)
    );
    assert_eq!(
        ReflectionEffectSettings::Parametric { impulse_response_size: 1, num_channels: 9 }.parts(),
        (ReflectionEffectType::Parametric, 1, 9)
    );
    assert_eq!(
        ReflectionEffectSettings::Hybrid { impulse_response_size: 2, num_channels: 16 }.parts(),
        (ReflectionEffectType::Hybrid, 2, 16)
    );
    assert_eq!(
        ReflectionEffectSettings::TrueAudioNext { impulse_response_size: 3, num_channels: 1 }.parts(),
        (ReflectionEffectType::TrueAudioNext, 3, 1)
    );
}

#[test]
fn reflection_output_requirements_by_type() {
    let settings = audionimbus::effect::reflections::ReflectionEffectSettings {
        impulse_response_size: 48000,
        num_channels: 9,
    };
    assert_eq!(Convolution::num_output_channels(&settings), ChannelRequirement::Exactly(9));
    assert_eq!(Parametric::num_output_channels(&settings), ChannelRequirement::AtLeast(1));
    assert_eq!(Hybrid::num_output_channels(&settings), ChannelRequirement::Exactly(9));
    assert_eq!(TrueAudioNext::num_output_channels(&settings), ChannelRequirement::Exactly(9));
}

#[test]
fn deviation_model_defaults_to_default() {
    let model: DeviationModel<fn(f32) -> f32> = DeviationModel::default();
    assert!(matches!(model, DeviationModel::Default));
}

#[test]
fn energy_field_test_valid() {
    let num_channels = num_ambisonics_channels(1);
    assert!(energy_field::check_channel_index(2, num_channels).is_ok());
    assert!(energy_field::check_channel_index(3, num_channels).is_ok());
    assert!(check_band_index(0, 0, num_channels).is_ok());
    assert!(check_band_index(3, NUM_BANDS - 1, num_channels).is_ok());
}

#[test]
fn energy_field_test_index_out_of_bounds() {
    assert_eq!(
        energy_field::check_channel_index(5, num_ambisonics_channels(1)),
        Err(EnergyFieldError::ChannelIndexOutOfBounds { channel_index: 5, num_channels: 4 })
    );
}

#[test]
fn test_band_index_out_of_bounds() {
    assert_eq!(
        check_band_index(0, 5, num_ambisonics_channels(1)),
        Err(EnergyFieldError::BandIndexOutOfBounds { band_index: 5, max_bands: 3 })
    );
}

#[test]
fn test_band_channel_index_out_of_bounds() {
    assert_eq!(
        check_band_index(10, 0, num_ambisonics_channels(1)),
        Err(EnergyFieldError::ChannelIndexOutOfBounds { channel_index: 10, num_channels: 4 })
    );
}

#[test]
fn energy_field_sizes() {
    assert_eq!(energy_field::data_len(4, 100), 1200);
    assert_eq!(energy_field::channel_len(100), 300);
    assert_eq!(energy_field::data_len(0, 100), 0);
}

#[test]
fn energy_field_error_messages() {
    assert_eq!(
        EnergyFieldError::ChannelIndexOutOfBounds { channel_index: 5, num_channels: 4 }.message(),
        "channel index 5 out of bounds (num_channels: 4)"
    );
    assert_eq!(
        EnergyFieldError::BandIndexOutOfBounds { band_index: 5, max_bands: 3 }.message(),
        "band index 5 out of bounds (max_bands: 3)"
    );
}

#[test]
fn test_impulse_response_channel_out_of_bounds() {
    assert_eq!(
        impulse_response::check_channel_index(10, num_ambisonics_channels(0)),
        Err(ImpulseResponseError::ChannelIndexOutOfBounds { channel_index: 10, num_channels: 1 })
    );
}

#[test]
fn impulse_response_channels_and_sizes() {
    assert!(impulse_response::check_channel_index(0, 4).is_ok());
    assert!(impulse_response::check_channel_index(3, 4).is_ok());
    assert!(impulse_response::check_channel_index(4, 4).is_err());
    assert_eq!(impulse_response::data_len(4, 48000), 192000);
    assert_eq!(
        ImpulseResponseError::ChannelIndexOutOfBounds { channel_index: 10, num_channels: 1 }.message(),
        "channel index 10 out of bounds (num_channels: 1)"
    );
}

#[test]
fn open_cl_test_valid() {
    for num_devices in [1usize, 2, 7] {
        assert!(check_device_index(0, num_devices).is_ok());
        assert!(check_device_index(num_devices - 1, num_devices).is_ok());
    }
}

#[test]
fn open_cl_test_index_out_of_bounds() {
    for num_devices in [0usize, 1, 3] {
        assert_eq!(
            check_device_index(num_devices + 5, num_devices),
            Err(OpenClDeviceListError::DeviceIndexOutOfBounds { device_index: num_devices + 5, num_devices })
        );
    }
    assert_eq!(
        OpenClDeviceListError::DeviceIndexOutOfBounds { device_index: 6, num_devices: 1 }.message(),
        "device index 6 out of bounds (num_devices: 1)"
    );
}

#[test]
fn exceeds_max_error_messages() {
    assert_eq!(
        NumChannelsExceedsMaxError { requested: 9, max: 4 }.message(),
        "requested 9 channels, but maximum is 4 (set during effect creation)"
    );
    assert_eq!(
        ImpulseResponseSizeExceedsMaxError { requested: 96000, max: 48000 }.message(),
        "requested impulse response size of 96000, but maximum is 48000 (set during effect creation)"
    );
    assert_eq!(
        NumChannelsExceedsMaxError { requested: u32::MAX, max: 0 }.message(),
        "requested 4294967295 channels, but maximum is 0 (set during effect creation)"
    );
}
