//! Working with the key management service: retries, the data keys it returns, and when its key
//! was last rotated.

use vstd::arithmetic::power2::{lemma2_to64, lemma_pow2_strictly_increases, pow2};
use vstd::prelude::*;
use crate::config::{Config, KmsMode};
use crate::crypto::{base64_decoded, dek_from_slice, DataKey, LocalKeyWrapper, DEK_LEN};
use crate::error::{error_text, Error};
use crate::text::{clone_bytes, trimmed};

verus! {

/// The pause before a retry, in milliseconds: it doubles from attempt to attempt, up to a limit.
pub open spec fn backoff_of(attempt: u32) -> nat {
    100 * pow2(if attempt < 6 { attempt as nat } else { 6 })
}

/// The pause before the retry after the given attempt, in milliseconds.
pub fn backoff(attempt: u32) -> (r: u64)
    ensures
        r == backoff_of(attempt),
{
    proof {
        lemma2_to64();
    }
    match attempt {
        0 => 100,
        1 => 200,
        2 => 400,
        3 => 800,
        4 => 1600,
        5 => 3200,
        _ => 6400,
    }
}

/// Whether a failed attempt is followed by another, and after what pause in milliseconds. Attempts
/// count from zero.
pub fn retry_after(max_retries: u32, attempt: u32) -> (r: Option<u64>)
    ensures
        match r {
            Some(pause) => attempt < max_retries && pause == backoff_of(attempt),
            None => attempt >= max_retries,
        },
{
    if attempt < max_retries {
        Some(backoff(attempt))
    } else {
        None
    }
}

/// Pauses never shrink and never exceed 6.4 seconds.
pub proof fn law_backoff_grows_to_a_limit(earlier: u32, later: u32)
    requires
        earlier <= later,
    ensures
        100 <= backoff_of(earlier) <= backoff_of(later) <= 6400,
{
    lemma2_to64();
    let a: nat = if earlier < 6 { earlier as nat } else { 6 };
    let b: nat = if later < 6 { later as nat } else { 6 };
    if a < b {
        lemma_pow2_strictly_increases(a, b);
    }
    if b < 6 {
        lemma_pow2_strictly_increases(b, 6);
    }
    if 0 < a {
        lemma_pow2_strictly_increases(0, a);
    }
}

/// A list of optional dates folded into the latest.
pub open spec fn latest_of(seen: Option<i64>, dates: Seq<Option<i64>>) -> Option<i64>
    decreases dates.len(),
{
    if dates.len() == 0 {
        seen
    } else {
        let before = latest_of(seen, dates.drop_last());
        match dates.last() {
            None => before,
            Some(date) => match before {
                None => Some(date),
                Some(latest) => Some(if date > latest { date } else { latest }),
            },
        }
    }
}

/// The latest of the dates on a page and those seen before.
pub fn latest_rotation(seen: Option<i64>, dates: &Vec<Option<i64>>) -> (r: Option<i64>)
    ensures
        r == latest_of(seen, dates@),
{
    let mut latest = seen;
    let mut i: usize = 0;
    assert(dates@.take(0) =~= Seq::empty());
    while i < dates.len()
        invariant
            i <= dates@.len(),
            latest == latest_of(seen, dates@.take(i as int)),
        decreases dates@.len() - i,
    {
        assert(dates@.take(i as int + 1).drop_last() =~= dates@.take(i as int));
        if let Some(date) = dates[i] {
            latest = match latest {
                None => Some(date),
                Some(l) => Some(
                    if date > l {
                        date
                    } else {
                        l
                    },
                ),
            };
        }
        i = i + 1;
    }
    assert(dates@.take(i as int) =~= dates@);
    latest
}

/// The latest date is one of the dates, and none is later.
pub proof fn law_latest_is_greatest(dates: Seq<Option<i64>>, i: int)
    requires
        0 <= i < dates.len(),
        dates[i] is Some,
    ensures
        latest_of(None, dates) is Some,
        latest_of(None, dates)->0 >= dates[i]->0,
        dates.contains(latest_of(None, dates)),
    decreases dates.len(),
{
    let front = dates.drop_last();
    if i < front.len() {
        law_latest_is_greatest(front, i);
    } else {
        lemma_latest_none_or_some(front);
    }
    let latest = latest_of(None, dates);
    if latest == dates.last() {
        assert(dates[dates.len() - 1] == latest);
    } else {
        lemma_latest_none_or_some(front);
        assert(front.contains(latest));
        let j = front.index_of(latest);
        assert(dates[j] == latest);
    }
}

proof fn lemma_latest_none_or_some(dates: Seq<Option<i64>>)
    ensures
        latest_of(None, dates) is Some ==> dates.contains(latest_of(None, dates)),
    decreases dates.len(),
{
    if dates.len() > 0 {
        let front = dates.drop_last();
        lemma_latest_none_or_some(front);
        let latest = latest_of(None, dates);
        if latest is Some {
            if latest == dates.last() {
                assert(dates[dates.len() - 1] == latest);
            } else {
                let j = front.index_of(latest);
                assert(dates[j] == latest);
            }
        }
    }
}

/// Where to go on reading a list that comes in pages: nowhere where the page is the last or does
/// not say.
pub fn next_page(truncated: bool, marker: Option<String>) -> (r: Option<String>)
    ensures
        r == (if truncated {
            marker
        } else {
            None
        }),
{
    if truncated {
        marker
    } else {
        None
    }
}

/// What is wrong with an answer of the service.
#[derive(Debug)]
pub struct KmsError {
    pub message: String,
}

fn kms_error(message: &str) -> (r: KmsError)
    ensures
        r.message@ == message@,
{
    KmsError { message: message.to_owned() }
}

/// The data key in an answer of the service, which must hold the key in the clear and wrapped; the
/// key's id is the one that the service tells, or the one that was asked for.
pub fn data_key_from(
    plaintext: Option<&[u8]>,
    wrapped: Option<&[u8]>,
    told_id: Option<String>,
    asked_id: &str,
) -> (r: Result<DataKey, KmsError>)
    ensures
        match plaintext {
            None => r matches Err(e) && e.message@ == "kms returned no plaintext data key"@,
            Some(key) => if key@.len() != DEK_LEN {
                r matches Err(e) && e.message@ == error_text(
                    Error::KeyLength { expected: DEK_LEN, got: key@.len() as usize },
                )
            } else {
                match wrapped {
                    None => r matches Err(e) && e.message@ == "kms returned no ciphertext blob"@,
                    Some(blob) => r matches Ok(data_key) && data_key.plaintext@ == key@
                        && data_key.wrapped@ == blob@ && data_key.key_id@ == (match told_id {
                        Some(id) => id@,
                        None => asked_id@,
                    }),
                }
            },
        },
{
    let plaintext = match plaintext {
        Some(key) => match dek_from_slice(key) {
            Ok(dek) => dek,
            Err(error) => return Err(KmsError { message: error.message() }),
        },
        None => return Err(kms_error("kms returned no plaintext data key")),
    };
    let wrapped = match wrapped {
        Some(blob) => clone_bytes(blob),
        None => return Err(kms_error("kms returned no ciphertext blob")),
    };
    let key_id = match told_id {
        Some(id) => id,
        None => asked_id.to_owned(),
    };
    Ok(DataKey { plaintext, wrapped, key_id })
}

/// The data key wrapped anew in an answer of the service.
pub fn rewrapped_from(wrapped: Option<&[u8]>, told_id: Option<String>, asked_id: &str) -> (r:
    Result<(Vec<u8>, String), KmsError>)
    ensures
        match wrapped {
            None => r matches Err(e) && e.message@
                == "kms re_encrypt returned no ciphertext blob"@,
            Some(blob) => r matches Ok(answer) && answer.0@ == blob@ && answer.1@ == (
            match told_id {
                Some(id) => id@,
                None => asked_id@,
            }),
        },
{
    match wrapped {
        Some(blob) => {
            let key_id = match told_id {
                Some(id) => id,
                None => asked_id.to_owned(),
            };
            Ok((clone_bytes(blob), key_id))
        },
        None => Err(kms_error("kms re_encrypt returned no ciphertext blob")),
    }
}

/// Which key management service a node uses.
pub enum KmsChoice {
    Aws { key_id: String },
    Local { wrapper: LocalKeyWrapper },
}

/// The service that a configuration asks for: with a master key in the configuration it must be
/// valid, without one a new key is made.
pub fn build(cfg: &Config) -> (r: Result<KmsChoice, Error>)
    ensures
        match cfg.kms_mode {
            KmsMode::Aws => r matches Ok(KmsChoice::Aws { key_id }) && key_id@ == cfg.kms_key_id@,
            KmsMode::Local => match cfg.local_master_key_b64 {
                None => r matches Ok(KmsChoice::Local { wrapper }) && wrapper.id() == "local-dev"@,
                Some(encoded) => match base64_decoded(trimmed(encoded@)) {
                    None => r matches Err(e) && e == Error::KeyUnwrap,
                    Some(raw) => if raw.len() == DEK_LEN {
                        r matches Ok(KmsChoice::Local { wrapper }) && wrapper.master() == raw
                            && wrapper.id() == "local"@
                    } else {
                        r matches Err(e) && e == (Error::KeyLength {
                            expected: DEK_LEN,
                            got: raw.len() as usize,
                        })
                    },
                },
            },
        },
{
    match cfg.kms_mode {
        KmsMode::Aws => Ok(KmsChoice::Aws { key_id: cfg.kms_key_id.clone() }),
        KmsMode::Local => match &cfg.local_master_key_b64 {
            Some(encoded) => match LocalKeyWrapper::from_base64(encoded.as_str(), "local") {
                Ok(wrapper) => Ok(KmsChoice::Local { wrapper }),
                Err(error) => Err(error),
            },
            None => Ok(KmsChoice::Local { wrapper: LocalKeyWrapper::random() }),
        },
    }
}

} // verus!
