//! What the service accepts: names, values and periods.

use vstd::prelude::*;
use vstd::utf8::encode_utf8;
use crate::api_error::{bad_request, ApiError, ApiErrorView, ApiResult};
use crate::text::{chars_of, concat};

verus! {

/// The longest name, in bytes.
pub const MAX_NAME_LEN: usize = 255;

/// The longest value, in bytes.
pub const MAX_VALUE_LEN: usize = 65536;

/// The most names that can be read at once.
pub const MAX_BATCH: usize = 256;

/// Whether `c` may stand in the name of a secret.
pub open spec fn name_char(c: char) -> bool {
    'A' <= c <= 'Z' || 'a' <= c <= 'z' || '0' <= c <= '9' || c == '-' || c == '_' || c == '/' || c
        == '.'
}

/// Why a name is refused, if it is.
pub open spec fn name_refusal(name: Seq<char>) -> Option<ApiErrorView> {
    if name.len() == 0 || encode_utf8(name).len() > MAX_NAME_LEN {
        Some(
            ApiErrorView::BadRequest("secret name must be between 1 and 255 characters"@),
        )
    } else if exists|i: int| 0 <= i < name.len() && !name_char(#[trigger] name[i]) {
        Some(ApiErrorView::BadRequest("secret name may contain only [A-Za-z0-9-_/.]"@))
    } else {
        None
    }
}

/// Whether a check came out as expected.
pub open spec fn checked(r: ApiResult<()>, refusal: Option<ApiErrorView>) -> bool {
    match refusal {
        None => r is Ok,
        Some(error) => r matches Err(e) && e@ == error,
    }
}

pub fn validate_name(name: &str) -> (r: ApiResult<()>)
    ensures
        checked(r, name_refusal(name@)),
{
    if name.is_empty() || name.as_bytes().len() > MAX_NAME_LEN {
        return Err(bad_request("secret name must be between 1 and 255 characters"));
    }
    let chars = chars_of(name);
    let mut i: usize = 0;
    while i < chars.len()
        invariant
            i <= chars@.len(),
            chars@ == name@,
            name@.len() > 0,
            encode_utf8(name@).len() <= MAX_NAME_LEN,
            forall|j: int| 0 <= j < i ==> name_char(#[trigger] name@[j]),
        decreases chars@.len() - i,
    {
        let c = chars[i];
        let fine = ('A' <= c && c <= 'Z') || ('a' <= c && c <= 'z') || ('0' <= c && c <= '9') || c
            == '-' || c == '_' || c == '/' || c == '.';
        if !fine {
            assert(!name_char(name@[i as int]));
            return Err(bad_request("secret name may contain only [A-Za-z0-9-_/.]"));
        }
        i = i + 1;
    }
    Ok(())
}

/// Why a value is refused, if it is.
pub open spec fn value_refusal(value: Seq<char>) -> Option<ApiErrorView> {
    if encode_utf8(value).len() > MAX_VALUE_LEN {
        Some(ApiErrorView::BadRequest("secret value is too large"@))
    } else {
        None
    }
}

pub fn validate_value(value: &str) -> (r: ApiResult<()>)
    ensures
        checked(r, value_refusal(value@)),
{
    if value.as_bytes().len() > MAX_VALUE_LEN {
        return Err(bad_request("secret value is too large"));
    }
    Ok(())
}

/// Why a field is refused, if it is.
pub open spec fn field_refusal(label: Seq<char>, value: Seq<char>) -> Option<ApiErrorView> {
    if value.len() == 0 {
        Some(ApiErrorView::BadRequest(label + " must not be empty"@))
    } else if encode_utf8(value).len() > MAX_VALUE_LEN {
        Some(ApiErrorView::BadRequest(label + " is too large"@))
    } else {
        None
    }
}

pub fn validate_field(label: &str, value: &str) -> (r: ApiResult<()>)
    ensures
        checked(r, field_refusal(label@, value@)),
{
    if value.is_empty() {
        return Err(ApiError::BadRequest(concat(label, " must not be empty")));
    }
    if value.as_bytes().len() > MAX_VALUE_LEN {
        return Err(ApiError::BadRequest(concat(label, " is too large")));
    }
    Ok(())
}

/// Why a grace period is refused, if it is.
pub open spec fn grace_refusal(grace: Option<i64>) -> Option<ApiErrorView> {
    if grace is Some && grace->0 < 0 {
        Some(ApiErrorView::BadRequest("grace_period_secs must not be negative"@))
    } else {
        None
    }
}

/// The grace period, none given meaning none.
pub fn normalize_grace(grace: Option<i64>) -> (r: ApiResult<i64>)
    ensures
        match grace_refusal(grace) {
            None => r matches Ok(secs) && secs == (match grace {
                Some(given) => given,
                None => 0,
            }),
            Some(error) => r matches Err(e) && e@ == error,
        },
{
    match grace {
        None => Ok(0),
        Some(secs) => if secs >= 0 {
            Ok(secs)
        } else {
            Err(bad_request("grace_period_secs must not be negative"))
        },
    }
}

/// A name that is accepted holds no NUL, so that no secret's versions are mistaken for another's.
pub proof fn law_accepted_names_are_nul_free(name: Seq<char>)
    requires
        name_refusal(name) is None,
    ensures
        crate::store::keys::nul_free(name),
{
    if name.contains('\0') {
        let i = name.index_of('\0');
        assert(!name_char(name[i]));
    }
}

} // verus!
