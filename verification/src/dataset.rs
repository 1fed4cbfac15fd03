//! Where the actor's datasets live: which dataset a request opens, the
//! local paths and platform URLs of a dataset, and the id the platform
//! gives a dataset it creates.
use vstd::prelude::*;
use rand::Rng;
use crate::numfmt::{decimal_seq, push_decimal};
use crate::text::{concat_str, copy_str, push_char};

verus! {

/// Why a dataset could not be opened or written.
#[derive(Debug, Clone, PartialEq, Eq)]
pub enum DatasetError {
    /// The platform's answer to creating a dataset is not JSON.
    InvalidResponse,
    /// The platform's answer has no `data.id` string.
    MissingDatasetId,
}

/// The cache key of a requested dataset: its name or id, `default` when
/// none is given.
pub open spec fn dataset_key_spec(name_or_id: Option<Seq<char>>) -> Seq<char> {
    match name_or_id {
        Some(n) => n,
        None => "default"@,
    }
}

/// The key an opened dataset is looked up by.
pub fn dataset_key(name_or_id: Option<&str>) -> (r: String)
    ensures
        r@ == dataset_key_spec(match name_or_id {
            Some(n) => Some(n@),
            None => None,
        }),
{
    match name_or_id {
        Some(n) => copy_str(n),
        None => copy_str("default"),
    }
}

/// How a dataset that is not cached is opened.
#[derive(Debug, Clone, PartialEq, Eq)]
pub enum DatasetPlan {
    /// The platform's default dataset, whose id the environment gives.
    CloudDefault,
    /// A named dataset created on the platform.
    CloudNamed { name: String },
    /// A local directory under `apify_storage/datasets`.
    Local { name: String },
}

/// How a dataset that is not cached is opened: on the platform, or when the
/// cloud is forced, the default dataset when no name is given and a named
/// cloud dataset otherwise; elsewhere a local dataset named by the key.
pub fn plan_dataset(name_or_id: Option<&str>, on_platform: bool, force_cloud: bool) -> (r: DatasetPlan)
    ensures
        (on_platform || force_cloud) && name_or_id is None ==> r == DatasetPlan::CloudDefault,
        (on_platform || force_cloud) && name_or_id is Some ==> (r matches DatasetPlan::CloudNamed { name }
            && name@ == name_or_id->0@),
        !(on_platform || force_cloud) ==> (r matches DatasetPlan::Local { name }
            && name@ == dataset_key_spec(match name_or_id {
                Some(n) => Some(n@),
                None => None,
            })),
{
    if on_platform || force_cloud {
        match name_or_id {
            None => DatasetPlan::CloudDefault,
            Some(n) => DatasetPlan::CloudNamed { name: copy_str(n) },
        }
    } else {
        DatasetPlan::Local { name: dataset_key(name_or_id) }
    }
}

/// `apify_storage/datasets/{name}`.
pub open spec fn local_dir_spec(name: Seq<char>) -> Seq<char> {
    "apify_storage/datasets/"@ + name
}

/// The directory of a local dataset.
pub fn local_dataset_dir(name: &str) -> (r: String)
    ensures
        r@ == local_dir_spec(name@),
{
    concat_str("apify_storage/datasets/", name)
}

/// The decimal text of a signed number (what `i32::to_string` gives).
pub open spec fn signed_decimal(n: int) -> Seq<char> {
    if n < 0 {
        "-"@ + decimal_seq((-n) as nat)
    } else {
        decimal_seq(n as nat)
    }
}

/// `apify_storage/datasets/{name}/{n}.json`.
pub open spec fn item_path_spec(name: Seq<char>, n: i32) -> Seq<char> {
    local_dir_spec(name) + "/"@ + signed_decimal(n as int) + ".json"@
}

/// The file an item of a local dataset is written to, numbered `n`.
pub fn local_item_path(name: &str, n: i32) -> (r: String)
    ensures
        r@ == item_path_spec(name@, n),
{
    proof {
        reveal_strlit("/");
        reveal_strlit("-");
    }
    let mut r = local_dataset_dir(name);
    push_char(&mut r, '/');
    let ghost head = r@;
    if n < 0 {
        push_char(&mut r, '-');
        let m: i64 = n as i64;
        push_decimal(&mut r, (-m) as u64);
        proof {
            assert((-m) as u64 as nat == (-n) as nat);
            assert(r@ =~= head + signed_decimal(n as int));
        }
    } else {
        push_decimal(&mut r, n as u64);
        proof {
            assert(r@ =~= head + signed_decimal(n as int));
        }
    }
    let ghost mid = r@;
    r.append(".json");
    proof {
        assert(head =~= local_dir_spec(name@) + "/"@);
        assert(r@ =~= mid + ".json"@);
        assert(r@ =~= item_path_spec(name@, n));
    }
    r
}

/// A random `i32`, by `rand::thread_rng().gen::<i32>()`. Nothing is stated
/// of it: it is chance.
#[verifier::external_body]
fn random_i32() -> (n: i32) {
    rand::thread_rng().gen::<i32>()
}

/// The file the next item of a local dataset goes to, numbered at random.
pub fn fresh_item_path(name: &str) -> (r: String)
    ensures
        exists|n: i32| r@ == item_path_spec(name@, n),
{
    let n = random_i32();
    local_item_path(name, n)
}

/// `https://api.apify.com/v2/datasets/{id}/items?token={token}`.
pub open spec fn items_url_spec(id: Seq<char>, token: Seq<char>) -> Seq<char> {
    "https://api.apify.com/v2/datasets/"@ + id + "/items?token="@ + token
}

/// The platform URL that items of a cloud dataset are posted to.
pub fn cloud_items_url(id: &str, token: &str) -> (r: String)
    ensures
        r@ == items_url_spec(id@, token@),
{
    let mut r = concat_str("https://api.apify.com/v2/datasets/", id);
    r.append("/items?token=");
    r.append(token);
    r
}

/// The authorisation header of a platform request: `Bearer {token}`.
pub fn bearer(token: &str) -> (r: String)
    ensures
        r@ == "Bearer "@ + token@,
{
    concat_str("Bearer ", token)
}

/// What `serde_json` reads from the platform's answer to creating a
/// dataset: `None` when the bytes are not JSON; otherwise the string at
/// `data.id`, if there is one.
pub uninterp spec fn json_data_id(body: Seq<u8>) -> Option<Option<Seq<char>>>;

/// `serde_json::from_slice` into a JSON value, then `Value::get("data")`,
/// `Value::get("id")` and `Value::as_str`, converted to an owned string.
/// Named as a function of the bytes alone.
#[verifier::external_body]
fn read_data_id(body: &[u8]) -> (r: Result<Option<String>, serde_json::Error>)
    ensures
        match r {
            Ok(Some(s)) => json_data_id(body@) == Some(Some(s@)),
            Ok(None) => json_data_id(body@) == Some(None::<Seq<char>>),
            Err(_) => json_data_id(body@) is None,
        },
{
    let value: serde_json::Value = serde_json::from_slice(body)?;
    Ok(value.get("data").and_then(|d| d.get("id")).and_then(|id| id.as_str()).map(|s| s.to_string()))
}

/// The id of a dataset the platform created, read from its answer.
pub fn created_dataset_id(body: &[u8]) -> (r: Result<String, DatasetError>)
    ensures
        match json_data_id(body@) {
            None => r == Err::<String, DatasetError>(DatasetError::InvalidResponse),
            Some(None) => r == Err::<String, DatasetError>(DatasetError::MissingDatasetId),
            Some(Some(id)) => (r matches Ok(s) && s@ == id),
        },
{
    match read_data_id(body) {
        Err(_) => Err(DatasetError::InvalidResponse),
        Ok(None) => Err(DatasetError::MissingDatasetId),
        Ok(Some(s)) => Ok(s),
    }
}

} // verus!
