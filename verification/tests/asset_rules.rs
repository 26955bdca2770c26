use track_mixer::assets::{find_dir, parse_map_line, IlluminationModel};
use track_mixer::light::{template_dir_light, DirLightProp};
use track_mixer::loader::{resource_path, AUDIO_LOCATION};

#[test]
fn illumination_models_go_by_number() {
    let models = [
        IlluminationModel::ColorOnAmbientOff,
        IlluminationModel::ColorOnAmbientOn,
        IlluminationModel::HighlightOn,
        IlluminationModel::ReflectionOnAndRayTraceOn,
        IlluminationModel::TransparencyGlassOnReflectionRayTraceOn,
        IlluminationModel::ReflectionFresnelOnAndRayTraceOn,
        IlluminationModel::TransparencyRefractionOnReflectionFresnelOffRayTraceOn,
        IlluminationModel::TransparencyRefractionOnReflectionFresnelOnRayTraceOn,
        IlluminationModel::ReflectionOnRayTraceOff,
        IlluminationModel::TransparencyGlassOnReflectionRayTraceOff,
        IlluminationModel::CastsShadowsOntoInvisibleSurfaces,
    ];
    for (number, model) in models.iter().enumerate() {
        let text = format!("{}", number);
        assert_eq!(IlluminationModel::recognize(&text), Some(*model));
        assert_eq!(IlluminationModel::parse(&text), *model);
    }
}

#[test]
fn other_texts_name_no_illumination_model() {
    for text in ["", "11", "12", "01", "00", "a", "1a", "-1", " 1", "100", "٣"] {
        assert_eq!(IlluminationModel::recognize(text), None);
    }
}

#[test]
fn the_directory_ends_with_the_last_slash() {
    assert_eq!(find_dir("assets/models/cube/cube.obj"), "assets/models/cube/");
    assert_eq!(find_dir("cube/cube.mtl"), "cube/");
    assert_eq!(find_dir("a/b/"), "a/b/");
    assert_eq!(find_dir("/"), "/");
    assert_eq!(find_dir("/cube.obj"), "/");
    assert_eq!(find_dir("modèles/cœur/x.obj"), "modèles/cœur/");
}

#[test]
fn a_path_without_slash_has_no_directory() {
    assert_eq!(find_dir("cube.obj"), "");
    assert_eq!(find_dir(""), "");
}

#[test]
fn a_map_line_marks_its_beats_with_hashes() {
    assert_eq!(parse_map_line("#-#"), (true, false, true));
    assert_eq!(parse_map_line("---"), (false, false, false));
    assert_eq!(parse_map_line("###"), (true, true, true));
    assert_eq!(parse_map_line("-#- and more"), (false, true, false));
    assert_eq!(parse_map_line("  #é"), (false, false, true));
}

#[test]
fn directional_light_uniforms_are_named_by_index_and_property() {
    assert_eq!(template_dir_light(0, DirLightProp::Direction), "dirLights[0].direction");
    assert_eq!(template_dir_light(7, DirLightProp::Diffuse), "dirLights[7].diffuse");
    assert_eq!(template_dir_light(42, DirLightProp::Specular), "dirLights[42].specular");
}

#[test]
fn tracks_live_under_the_sounds_directory() {
    assert_eq!(AUDIO_LOCATION, "assets/sounds/");
    assert_eq!(resource_path(AUDIO_LOCATION, &"test.wav".to_string()), "assets/sounds/test.wav");
    assert_eq!(resource_path("", &"x".to_string()), "x");
}
