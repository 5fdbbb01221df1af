//! A lookup-and-transform service core: a name is validated, a source text is
//! fetched from a description provider, rewritten by a translation provider,
//! and the outcome is memoized per name in a bounded, recency-ordered cache.
//!
//! The boundary is one operation, [`lookup`]: it validates the raw name,
//! answers from the [`cache::Cache`] when the name is memoized, and otherwise
//! runs the two providers once, memoizing a final description or a confirmed
//! absence but never a failure.
use vstd::prelude::*;

pub mod api;
pub mod cache;
pub mod services;

use crate::api::{valid_name, Alpha};
use crate::cache::{has_key, inserted, stored_value, touched, Cache};
use crate::services::{PokeApi, ProviderError, Translator};

verus! {

/// Success payload returned to the caller: the looked-up name and its final
/// description.
#[derive(Clone, Debug, PartialEq, Eq)]
pub struct Pokemon {
    pub name: String,
    pub description: String,
}

/// Which provider a failure came from.
#[derive(Clone, Copy, Debug, PartialEq, Eq)]
pub enum UpstreamSource {
    PokeApi,
    Translator,
}

/// A single-attempt provider failure: which provider failed, and its cause.
#[derive(Clone, Debug, PartialEq, Eq)]
pub struct UpstreamFailure {
    pub source: UpstreamSource,
    pub cause: ProviderError,
}

/// Why a lookup produced no outcome: the input never reached the cache or the
/// providers, or one single-attempt provider call failed. Failures are
/// surfaced immediately and never memoized.
#[derive(Clone, Debug, PartialEq, Eq)]
pub enum LookupError {
    /// The raw name is empty or holds a character that is not a letter.
    InvalidName,
    /// A provider failed; the cause is kept for logging at the boundary.
    Upstream { source: UpstreamSource, cause: ProviderError },
}

/// The outcome of a completed lookup: a final description, or a confirmed
/// absence. Both are memoized.
#[derive(Clone, Debug, PartialEq, Eq)]
pub enum LookupOutcome {
    Found(String),
    NotFound,
}

/// What the one-attempt compute step may hand the cache for `name`: a
/// description some fetched source text translates to, a confirmed absence
/// the description provider answered, or the failure of whichever provider
/// decided. Stated over the providers' own postconditions, so a caller that
/// knows its providers knows the outcome.
pub open spec fn compute_post<P: PokeApi, T: Translator>(
    pokeapi: &P,
    translator: &T,
    name: Seq<char>,
    cr: Result<Option<String>, UpstreamFailure>,
) -> bool {
    match cr {
        Ok(Some(translated)) => exists|source_text: String|
            #[trigger] pokeapi.fetch_post(name, Ok(Some(source_text)))
                && translator.translate_post(source_text@, Ok(translated)),
        Ok(None) => pokeapi.fetch_post(name, Ok(None)),
        Err(failure) => match failure.source {
            UpstreamSource::PokeApi => pokeapi.fetch_post(name, Err(failure.cause)),
            UpstreamSource::Translator => exists|source_text: String|
                #[trigger] pokeapi.fetch_post(name, Ok(Some(source_text)))
                    && translator.translate_post(source_text@, Err(failure.cause)),
        },
    }
}

/// The request pipeline: validate the raw name, then answer from the cache,
/// and on a miss fetch the description and translate it, memoizing the final
/// outcome. Rejected names never reach the cache or the providers; provider
/// failures leave the cache exactly as it was. Every outcome of a miss
/// satisfies [`compute_post`], so a caller whose providers state their
/// postconditions knows which description is found, when absence is
/// confirmed, and which provider a surfaced failure came from.
pub fn lookup<P: PokeApi, T: Translator>(
    cache: &mut Cache,
    pokeapi: &P,
    translator: &T,
    raw_name: String,
) -> (r: Result<LookupOutcome, LookupError>)
    requires
        old(cache).wf(),
    ensures
        final(cache).wf(),
        final(cache).capacity() == old(cache).capacity(),
        ({
            let es0 = old(cache).entries();
            let es1 = final(cache).entries();
            let cap = old(cache).capacity();
            match r {
                Ok(LookupOutcome::Found(text)) => valid_name(raw_name@) && (if has_key(
                    es0,
                    raw_name@,
                ) {
                    stored_value(es0, raw_name@) == Some(text@) && es1 == touched(es0, raw_name@)
                } else {
                    es1 == inserted(es0, raw_name@, Some(text@), cap) && compute_post(
                        pokeapi,
                        translator,
                        raw_name@,
                        Ok(Some(text)),
                    )
                }),
                Ok(LookupOutcome::NotFound) => valid_name(raw_name@) && (if has_key(
                    es0,
                    raw_name@,
                ) {
                    stored_value(es0, raw_name@) == None::<Seq<char>> && es1 == touched(
                        es0,
                        raw_name@,
                    )
                } else {
                    es1 == inserted(es0, raw_name@, None, cap) && compute_post(
                        pokeapi,
                        translator,
                        raw_name@,
                        Ok(None),
                    )
                }),
                Err(LookupError::InvalidName) => !valid_name(raw_name@) && es1 == es0,
                Err(LookupError::Upstream { source, cause }) => valid_name(raw_name@) && !has_key(
                    es0,
                    raw_name@,
                ) && es1 == es0 && compute_post(
                    pokeapi,
                    translator,
                    raw_name@,
                    Err((UpstreamFailure { source, cause })),
                ),
            }
        }),
{
    let name = match Alpha::try_new(raw_name) {
        Some(a) => a,
        None => {
            return Err(LookupError::InvalidName);
        },
    };
    let ghost looked_up: Seq<char> = name@;
    let compute = || -> (cr: Result<Option<String>, UpstreamFailure>)
        ensures
            compute_post(pokeapi, translator, looked_up, cr),
        {
            match pokeapi.get_description(name.as_str()) {
                Ok(Some(source_description)) => {
                    let translated = translator.translate(source_description.as_str());
                    proof {
                        assert(pokeapi.fetch_post(name@, Ok(Some(source_description))));
                    }
                    match translated {
                        Ok(t) => Ok(Some(t)),
                        Err(e) => Err(
                            UpstreamFailure { source: UpstreamSource::Translator, cause: e },
                        ),
                    }
                },
                Ok(None) => Ok(None),
                Err(e) => Err(UpstreamFailure { source: UpstreamSource::PokeApi, cause: e }),
            }
        };
    let computed = cache.get_or_calculate(&name, compute);
    match computed {
        Ok(Some(description)) => Ok(LookupOutcome::Found(description)),
        Ok(None) => Ok(LookupOutcome::NotFound),
        Err(failure) => Err(
            LookupError::Upstream { source: failure.source, cause: failure.cause },
        ),
    }
}

} // verus!
