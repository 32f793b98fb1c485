use better_replacements_core::{
    get_app_data_dir_internal, get_espanso_config_dir_internal,
    app_data_dir_under, espanso_config_dir_from, get_app_data_file_path, get_espanso_file_path,
    parse_espanso_path_output,
};

#[test]
fn test_espanso_file_path() {
    let result = get_espanso_file_path("test.yml", None);
    assert!(result.is_ok());

    let path = result.unwrap();
    assert!(path.contains("test.yml"));
    assert!(path.contains("match"));
}

#[test]
fn test_app_data_file_path() {
    let result = get_app_data_file_path("projects.json");
    assert!(result.is_ok());

    let path = result.unwrap();
    assert!(path.contains("projects.json"));
    assert!(path.contains("BetterReplacementsManager"));
}

#[test]
fn reported_config_dir_is_used() {
    let path = get_espanso_file_path("base.yml", Some("/opt/esp".to_string())).unwrap();
    assert_eq!(path, "/opt/esp/match/base.yml");
}

#[test]
fn data_dir_joins_under_config_dir() {
    assert_eq!(
        app_data_dir_under(Some("/home/u/.config".to_string())),
        Ok("/home/u/.config/BetterReplacementsManager".to_string())
    );
    assert_eq!(
        app_data_dir_under(None),
        Err("Could not find config directory".to_string())
    );
    assert_eq!(
        espanso_config_dir_from(None, Some("/c".to_string())),
        Ok("/c/espanso".to_string())
    );
    assert_eq!(
        espanso_config_dir_from(Some("/x".to_string()), None),
        Ok("/x".to_string())
    );
}

#[test]
fn cli_output_is_parsed() {
    let out = "Config: /home/u/.config/espanso  \nPackages: /p\nRuntime: /r\n";
    assert_eq!(
        parse_espanso_path_output(out),
        Some("/home/u/.config/espanso".to_string())
    );
    assert_eq!(
        parse_espanso_path_output("Packages: /p\nConfig:\t/c\r\n"),
        Some("/c".to_string())
    );
    assert_eq!(parse_espanso_path_output("nothing here"), None);
    assert_eq!(parse_espanso_path_output(""), None);
}

#[test]
fn test_espanso_config_dir() {
    let result = get_espanso_config_dir_internal(None);
    assert!(result.is_ok());

    let path = result.unwrap();
    assert!(path.contains("espanso"));
}

#[test]
fn test_app_data_dir() {
    let result = get_app_data_dir_internal();
    assert!(result.is_ok());

    let path = result.unwrap();
    assert!(path.contains("BetterReplacementsManager"));
}
