//! The access keys of the pricing source, taken from the secrets of the
//! deployment.

use shuttle_secrets::SecretStore;
use vstd::prelude::*;

verus! {

/// The name of the secret that holds the access key id.
pub const ACCESS_KEY_ID: &'static str = "AWS_ACCESS_KEY_ID";

/// The name of the secret that holds the secret access key.
pub const SECRET_ACCESS_KEY: &'static str = "AWS_SECRET_ACCESS_KEY";

#[verifier::external_type_specification]
#[verifier::external_body]
pub struct ExSecretStore(SecretStore);

/// The secrets that a store holds, each under its name.
pub uninterp spec fn secrets_of(store: SecretStore) -> Map<Seq<char>, Seq<char>>;

/// `SecretStore::get`: the secret under `key`, where the store holds one.
/// Taken on trust: the store is a map from names to secrets, and the
/// lookup returns a copy of the secret under the name, or nothing.
#[verifier::external_body]
fn secret(store: &SecretStore, key: &str) -> (value: Option<String>)
    ensures
        value.deep_view() == if secrets_of(*store).contains_key(key@) {
            Some(secrets_of(*store)[key@])
        } else {
            None
        },
{
    store.get(key)
}

/// The secret that a store lacks.
#[derive(Clone, Copy, Debug, PartialEq, Eq, Structural)]
pub enum MissingSecret {
    AccessKeyId,
    SecretAccessKey,
}

impl MissingSecret {
    /// The name of the secret.
    pub fn name(&self) -> (name: &'static str)
        ensures
            name@ == match self {
                MissingSecret::AccessKeyId => ACCESS_KEY_ID@,
                MissingSecret::SecretAccessKey => SECRET_ACCESS_KEY@,
            },
    {
        match self {
            MissingSecret::AccessKeyId => ACCESS_KEY_ID,
            MissingSecret::SecretAccessKey => SECRET_ACCESS_KEY,
        }
    }
}

/// The two keys that open the pricing source.
#[derive(Debug, PartialEq, Eq)]
pub struct AccessKeys {
    pub access_key_id: String,
    pub secret_access_key: String,
}

/// What the keys are, as text.
pub struct AccessKeysView {
    pub access_key_id: Seq<char>,
    pub secret_access_key: Seq<char>,
}

impl View for AccessKeys {
    type V = AccessKeysView;

    open spec fn view(&self) -> AccessKeysView {
        AccessKeysView {
            access_key_id: self.access_key_id@,
            secret_access_key: self.secret_access_key@,
        }
    }
}

/// The keys that the secrets give: both, where both are there; else the
/// first of the two that is missing.
pub open spec fn keys_among(secrets: Map<Seq<char>, Seq<char>>) -> Result<
    AccessKeysView,
    MissingSecret,
> {
    if !secrets.contains_key(ACCESS_KEY_ID@) {
        Err(MissingSecret::AccessKeyId)
    } else if !secrets.contains_key(SECRET_ACCESS_KEY@) {
        Err(MissingSecret::SecretAccessKey)
    } else {
        Ok(
            AccessKeysView {
                access_key_id: secrets[ACCESS_KEY_ID@],
                secret_access_key: secrets[SECRET_ACCESS_KEY@],
            },
        )
    }
}

/// A provider of access keys that reads them from the deployment's secrets.
pub struct ShuttleSecretsAwsCredentials {
    secrets: SecretStore,
}

impl ShuttleSecretsAwsCredentials {
    /// The store that the provider reads.
    pub closed spec fn store(&self) -> SecretStore {
        self.secrets
    }

    pub fn new(secrets: SecretStore) -> (provider: Self)
        ensures
            provider.store() == secrets,
    {
        Self { secrets }
    }

    /// The access keys, or the secret that is missing.
    pub fn credentials(&self) -> (keys: Result<AccessKeys, MissingSecret>)
        ensures
            match keys {
                Ok(keys) => keys_among(secrets_of(self.store())) == Ok::<
                    AccessKeysView,
                    MissingSecret,
                >(keys@),
                Err(missing) => keys_among(secrets_of(self.store())) == Err::<
                    AccessKeysView,
                    MissingSecret,
                >(missing),
            },
    {
        let access_key_id = match secret(&self.secrets, ACCESS_KEY_ID) {
            Some(value) => value,
            None => {
                return Err(MissingSecret::AccessKeyId);
            },
        };
        let secret_access_key = match secret(&self.secrets, SECRET_ACCESS_KEY) {
            Some(value) => value,
            None => {
                return Err(MissingSecret::SecretAccessKey);
            },
        };
        Ok(AccessKeys { access_key_id, secret_access_key })
    }
}

} // verus!
