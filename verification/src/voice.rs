//! Whether the voice channel runs.

use vstd::prelude::*;

use crate::text::pieces;

verus! {

/// What the configuration says of the voice channel.
pub struct VoiceConfig {
    pub google_api_key: Option<String>,
    pub gemini_live_model: String,
    pub voice_name: String,
    pub camera_enabled: bool,
}

/// The model that the voice channel speaks through, and the key to it.
#[derive(Debug)]
pub struct LiveModel {
    pub api_key: String,
    pub name: String,
}

/// The state of the voice channel at boot.
#[derive(Debug)]
pub struct VoiceState {
    pub enabled: bool,
    pub model: Option<LiveModel>,
    pub voice_name: String,
    /// Camera channel: frames over the voice socket, gestures back as tool calls.
    pub camera: bool,
}

/// The state at boot under a configuration.
pub open spec fn booted(config: VoiceConfig, r: VoiceState) -> bool {
    &&& r.enabled == (config.google_api_key is Some)
    &&& match r.model {
        Some(m) => pieces::text_in(config.google_api_key) == Some(m.api_key@) && m.name@
            == config.gemini_live_model@,
        None => config.google_api_key is None,
    }
    &&& r.voice_name@ == config.voice_name@
    &&& r.camera == (config.google_api_key is Some && config.camera_enabled)
}

/// The channel is enabled exactly where there is a key, and then speaks through the configured
/// model with that key; the camera is on exactly where the channel is and it is configured.
pub proof fn law_the_channel_needs_a_key(config: VoiceConfig, r: VoiceState)
    requires
        booted(config, r),
    ensures
        config.google_api_key is Some ==> r.enabled && r.model is Some && r.model->0.api_key@
            == config.google_api_key->0@ && r.model->0.name@ == config.gemini_live_model@,
        config.google_api_key is None ==> !r.enabled && r.model is None && !r.camera,
        r.camera <==> r.enabled && config.camera_enabled,
        r.voice_name@ == config.voice_name@,
{
}

impl VoiceState {
    /// The voice channel is enabled exactly when there is a key; the camera needs it too.
    pub fn boot(config: &VoiceConfig) -> (r: Self)
        ensures
            booted(*config, r),
    {
        match &config.google_api_key {
            Some(key) => VoiceState {
                enabled: true,
                model: Some(
                    LiveModel { api_key: key.clone(), name: config.gemini_live_model.clone() },
                ),
                voice_name: config.voice_name.clone(),
                camera: config.camera_enabled,
            },
            None => VoiceState {
                enabled: false,
                model: None,
                voice_name: config.voice_name.clone(),
                camera: false,
            },
        }
    }
}

} // verus!
