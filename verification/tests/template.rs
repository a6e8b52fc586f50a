use dprint::template::expand_templates;
use dprint::template::template_expand;
use dprint::template::TemplateSource;
use dprint::template::TemplateError;
use dprint::configuration::ConfigKeyValue;
use dprint::configuration::ConfigMapValue;
use dprint::configuration::RawPluginConfig;

fn local(dir: &str) -> TemplateSource {
    TemplateSource::Local { dir: dir.to_string() }
}

fn remote(url: &str) -> TemplateSource {
    TemplateSource::Remote { url: url.to_string() }
}

#[test]
fn should_expand_config_dir_and_origin_config_dir() {
    let r = expand_templates("${configDir}/test && ${originConfigDir}/other", &local("/dir"), &local("/origin")).unwrap();
    assert_eq!(r, "/dir/test && /origin/other");
}

#[test]
fn should_keep_escaped_dollar_sign() {
    let r = expand_templates("${originConfigDir}/final && \\${configDir}/escaped", &remote("https://x/y.json"), &local("/dir")).unwrap();
    assert_eq!(r, "/dir/final && ${configDir}/escaped");
}

#[test]
fn should_leave_text_without_templates() {
    assert_eq!(expand_templates("plain $ text", &local("/d"), &local("/o")).unwrap(), "plain $ text");
    assert_eq!(expand_templates("${unclosed", &local("/d"), &local("/o")).unwrap(), "${unclosed");
    assert_eq!(expand_templates("a${}b", &local("/d"), &local("/o")).unwrap(), "ab");
}

#[test]
fn should_error_on_config_dir_in_remote_file() {
    let err = expand_templates("${configDir}/test", &remote("https://dprint.dev/test.json"), &local("/o")).err().unwrap();
    assert!(matches!(err, TemplateError::ConfigDirNotLocal));
    assert_eq!(
        err.to_string(),
        "Cannot use ${configDir} template in remote configuration files. Maybe use ${originConfigDir} instead?"
    );
}

#[test]
fn should_error_on_origin_config_dir_when_origin_remote() {
    let err = expand_templates("${originConfigDir}/final", &local("/d"), &remote("https://dprint.dev/test.json")).err().unwrap();
    assert_eq!(
        err.to_string(),
        "Cannot use ${originConfigDir} template when the origin configuration file (https://dprint.dev/test.json) is remote."
    );
    let npm = TemplateSource::Npm { specifier: "npm:@scope/pkg@1.0.0".to_string() };
    let err = expand_templates("${originConfigDir}", &local("/d"), &npm).err().unwrap();
    assert_eq!(
        err.to_string(),
        "Cannot use ${originConfigDir} template when the origin configuration file (npm:@scope/pkg@1.0.0) is an npm package."
    );
}

#[test]
fn should_error_on_unknown_template() {
    let err = expand_templates("${unknown}", &local("/d"), &local("/o")).err().unwrap();
    assert_eq!(
        err.to_string(),
        "Unknown template literal ${unknown}. Only ${configDir} and ${originConfigDir} are supported. If you meant to pass this to a plugin, escape the dollar sign with two back slashes."
    );
}

#[test]
fn should_expand_templates_throughout_config_map() {
    let mut map = vec![
        ("a".to_string(), ConfigMapValue::KeyValue(ConfigKeyValue::String("${configDir}/a".to_string()))),
        ("list".to_string(), ConfigMapValue::Vec(vec!["${configDir}/x".to_string(), "y".to_string()])),
        (
            "plugin".to_string(),
            ConfigMapValue::PluginConfig(RawPluginConfig {
                associations: None,
                locked: false,
                properties: vec![
                    ("p".to_string(), ConfigKeyValue::String("${originConfigDir}/p".to_string())),
                    ("n".to_string(), ConfigKeyValue::Number(3)),
                ],
                overrides: Vec::new(),
            }),
        ),
    ];
    template_expand(&local("/dir"), &local("/origin"), &mut map).unwrap();
    assert!(matches!(&map[0].1, ConfigMapValue::KeyValue(ConfigKeyValue::String(s)) if s == "/dir/a"));
    assert!(matches!(&map[1].1, ConfigMapValue::Vec(v) if v == &vec!["/dir/x".to_string(), "y".to_string()]));
    match &map[2].1 {
        ConfigMapValue::PluginConfig(c) => {
            assert!(matches!(&c.properties[0].1, ConfigKeyValue::String(s) if s == "/origin/p"));
            assert!(matches!(&c.properties[1].1, ConfigKeyValue::Number(3)));
        }
        _ => panic!(),
    }
}

#[test]
fn should_leave_config_map_unchanged_on_template_error() {
    let mut map = vec![
        ("a".to_string(), ConfigMapValue::KeyValue(ConfigKeyValue::String("${configDir}/a".to_string()))),
        ("b".to_string(), ConfigMapValue::KeyValue(ConfigKeyValue::String("${bad}".to_string()))),
    ];
    let err = template_expand(&local("/dir"), &local("/origin"), &mut map).err().unwrap();
    assert!(matches!(err, TemplateError::Unknown { .. }));
    assert!(matches!(&map[0].1, ConfigMapValue::KeyValue(ConfigKeyValue::String(s)) if s == "${configDir}/a"));
}
