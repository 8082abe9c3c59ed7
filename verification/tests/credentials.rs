use pricer::credentials::{
    AccessKeys, MissingSecret, ShuttleSecretsAwsCredentials, ACCESS_KEY_ID, SECRET_ACCESS_KEY,
};
use shuttle_secrets::SecretStore;

fn store(secrets: &[(&str, &str)]) -> SecretStore {
    let mut map = serde_json::Map::new();
    for (name, value) in secrets {
        map.insert(name.to_string(), serde_json::Value::String(value.to_string()));
    }
    let mut outer = serde_json::Map::new();
    outer.insert("secrets".to_string(), serde_json::Value::Object(map));
    serde_json::from_value(serde_json::Value::Object(outer)).unwrap()
}

#[test]
fn both_secrets_give_the_keys() {
    let provider = ShuttleSecretsAwsCredentials::new(store(&[
        ("AWS_SECRET_ACCESS_KEY", "the key"),
        ("OTHER", "unrelated"),
        ("AWS_ACCESS_KEY_ID", "the id"),
    ]));
    assert_eq!(
        provider.credentials(),
        Ok(AccessKeys {
            access_key_id: "the id".to_string(),
            secret_access_key: "the key".to_string(),
        })
    );
}

#[test]
fn missing_access_key_id_is_named() {
    let provider = ShuttleSecretsAwsCredentials::new(store(&[("AWS_SECRET_ACCESS_KEY", "the key")]));
    assert_eq!(provider.credentials(), Err(MissingSecret::AccessKeyId));
    assert_eq!(MissingSecret::AccessKeyId.name(), "AWS_ACCESS_KEY_ID");
}

#[test]
fn missing_secret_access_key_is_named() {
    let provider = ShuttleSecretsAwsCredentials::new(store(&[("AWS_ACCESS_KEY_ID", "the id")]));
    assert_eq!(provider.credentials(), Err(MissingSecret::SecretAccessKey));
    assert_eq!(MissingSecret::SecretAccessKey.name(), "AWS_SECRET_ACCESS_KEY");
}

#[test]
fn with_both_secrets_missing_the_access_key_id_is_named() {
    let provider = ShuttleSecretsAwsCredentials::new(store(&[("aws_access_key_id", "lower case")]));
    assert_eq!(provider.credentials(), Err(MissingSecret::AccessKeyId));
}

#[test]
fn secret_names_are_those_of_the_environment() {
    assert_eq!(ACCESS_KEY_ID, "AWS_ACCESS_KEY_ID");
    assert_eq!(SECRET_ACCESS_KEY, "AWS_SECRET_ACCESS_KEY");
}
