//! Capability contracts for the two upstream providers, the endpoint
//! configuration of the live description client, verified mock providers, and
//! the selection of an English flavor text from a fetched species record.
use vstd::prelude::*;

use crate::cache::opt_text_view;

verus! {

/// Failure reported by a provider: any transport, non-success-status or
/// malformed-payload condition, carried as an opaque cause for logging.
#[derive(Clone, Debug, PartialEq, Eq)]
pub struct ProviderError {
    pub message: String,
}

/// Abstraction for description lookup. `Ok(None)` means the name is
/// recognized as having no available description; failures are transient and
/// must never be memoized.
pub trait PokeApi {
    /// The provider's postcondition: which results a fetch for `name` may
    /// return. Every result of `get_description` satisfies it, so a caller
    /// of a known provider can conclude what came back. A provider that does
    /// not say more leaves it at `true`, promising nothing.
    open spec fn fetch_post(
        &self,
        name: Seq<char>,
        r: Result<Option<String>, ProviderError>,
    ) -> bool {
        true
    }

    /// Fetches the description for a name.
    fn get_description(&self, name: &str) -> (r: Result<Option<String>, ProviderError>)
        ensures
            self.fetch_post(name@, r),
    ;
}

/// Abstraction for text transformation.
pub trait Translator {
    /// The provider's postcondition: which results a transformation of
    /// `source` may return. Every result of `translate` satisfies it. A
    /// provider that does not say more leaves it at `true`, promising
    /// nothing.
    open spec fn translate_post(&self, source: Seq<char>, r: Result<String, ProviderError>) -> bool {
        true
    }

    /// Rewrites the given source text into the output style.
    fn translate(&self, source: &str) -> (r: Result<String, ProviderError>)
        ensures
            self.translate_post(source@, r),
    ;
}

/// Endpoint configuration of the live description client. The `Default`
/// instance points at the public species endpoint.
pub struct PokeApiClient {
    pub url: String,
}

impl Default for PokeApiClient {
    fn default() -> (r: PokeApiClient)
        ensures
            r.url@ == "https://pokeapi.co/api/v2/pokemon-species/"@,
    {
        PokeApiClient { url: "https://pokeapi.co/api/v2/pokemon-species/".to_owned() }
    }
}

/// One entry of a fetched species record: a flavor text and the name of the
/// language it is written in.
pub struct FlavorText {
    pub flavor_text: String,
    pub language: String,
}

/// The first flavor text written in English, if any.
pub open spec fn english_text(s: Seq<FlavorText>) -> Option<Seq<char>>
    decreases s.len(),
{
    if s.len() == 0 {
        None
    } else if s[0].language@ == "en"@ {
        Some(s[0].flavor_text@)
    } else {
        english_text(s.drop_first())
    }
}

/// Selects the first English flavor text of a species record; `None` when the
/// record holds no English entry.
pub fn english_flavor_text(entries: &Vec<FlavorText>) -> (r: Option<String>)
    ensures
        opt_text_view(r) == english_text(entries@),
{
    let en: String = "en".to_owned();
    let mut i: usize = 0;
    proof {
        assert(entries@.skip(0) =~= entries@);
    }
    while i < entries.len()
        invariant
            0 <= i <= entries@.len(),
            en@ == "en"@,
            english_text(entries@) == english_text(entries@.skip(i as int)),
        decreases entries@.len() - i,
    {
        let e = &entries[i];
        if e.language.eq(&en) {
            proof {
                assert(entries@.skip(i as int)[0] == entries@[i as int]);
            }
            return Some(e.flavor_text.clone());
        }
        proof {
            assert(entries@.skip(i as int)[0] == entries@[i as int]);
            assert(entries@.skip(i as int).drop_first() =~= entries@.skip(i as int + 1));
        }
        i += 1;
    }
    proof {
        assert(entries@.skip(i as int).len() == 0);
    }
    None
}

/// The description stored for `k` in a mock table: the second component of
/// the first pair whose first component is `k`.
pub open spec fn table_lookup(t: Seq<(String, String)>, k: Seq<char>) -> Option<Seq<char>>
    decreases t.len(),
{
    if t.len() == 0 {
        None
    } else if t[0].0@ == k {
        Some(t[0].1@)
    } else {
        table_lookup(t.drop_first(), k)
    }
}

/// Description provider backed by a fixed table of names and descriptions,
/// for configurations that do not reach the live service.
pub struct MockPokeApi {
    pub table: Vec<(String, String)>,
}

impl PokeApi for MockPokeApi {
    /// Answers with exactly the table's entry and never fails.
    open spec fn fetch_post(&self, name: Seq<char>, r: Result<Option<String>, ProviderError>) -> bool {
        r matches Ok(v) && opt_text_view(v) == table_lookup(self.table@, name)
    }

    fn get_description(&self, name: &str) -> (r: Result<Option<String>, ProviderError>) {
        let key: String = name.to_owned();
        let mut i: usize = 0;
        proof {
            assert(self.table@.skip(0) =~= self.table@);
        }
        while i < self.table.len()
            invariant
                0 <= i <= self.table@.len(),
                key@ == name@,
                table_lookup(self.table@, name@) == table_lookup(
                    self.table@.skip(i as int),
                    name@,
                ),
            decreases self.table@.len() - i,
        {
            let e = &self.table[i];
            if e.0.eq(&key) {
                proof {
                    assert(self.table@.skip(i as int)[0] == self.table@[i as int]);
                }
                return Ok(Some(e.1.clone()));
            }
            proof {
                assert(self.table@.skip(i as int)[0] == self.table@[i as int]);
                assert(self.table@.skip(i as int).drop_first() =~= self.table@.skip(i as int + 1));
            }
            i += 1;
        }
        proof {
            assert(self.table@.skip(i as int).len() == 0);
        }
        Ok(None)
    }
}

/// Adapter letting any matching closure act as a description provider, so a
/// caller need not define a type of its own. The constructor demands a
/// closure that accepts every name.
pub struct FnPokeApi<F: Fn(&str) -> Result<Option<String>, ProviderError>> {
    f: F,
}

impl<F: Fn(&str) -> Result<Option<String>, ProviderError>> FnPokeApi<F> {
    /// The held closure accepts every name.
    #[verifier::type_invariant]
    spec fn always_callable(self) -> bool {
        forall|name: &str| call_requires(self.f, (name,))
    }

    /// Wraps a closure that accepts every name. The adapter's postcondition
    /// is exactly the closure's: its fetch can return precisely what the
    /// closure can return.
    pub fn new(f: F) -> (r: FnPokeApi<F>)
        requires
            forall|name: &str| call_requires(f, (name,)),
        ensures
            forall|name: Seq<char>, res: Result<Option<String>, ProviderError>|
                #[trigger] r.fetch_post(name, res) <==> (exists|n: &str|
                    n@ == name && #[trigger] call_ensures(f, (n,), res)),
    {
        let r = FnPokeApi { f };
        proof {
            assert forall|name: Seq<char>, res: Result<Option<String>, ProviderError>|
                #[trigger] r.fetch_post(name, res) <==> (exists|n: &str|
                    n@ == name && #[trigger] call_ensures(f, (n,), res)) by {
                if r.fetch_post(name, res) {
                    let n = choose|n: &str| n@ == name && #[trigger] call_ensures(r.f, (n,), res);
                    assert(n@ == name && call_ensures(f, (n,), res));
                }
                if exists|n: &str| n@ == name && #[trigger] call_ensures(f, (n,), res) {
                    let n = choose|n: &str| n@ == name && #[trigger] call_ensures(f, (n,), res);
                    assert(n@ == name && call_ensures(r.f, (n,), res));
                }
            }
        }
        r
    }
}

impl<F: Fn(&str) -> Result<Option<String>, ProviderError>> PokeApi for FnPokeApi<F> {
    /// The wrapped closure's own postcondition.
    closed spec fn fetch_post(
        &self,
        name: Seq<char>,
        r: Result<Option<String>, ProviderError>,
    ) -> bool {
        exists|n: &str| n@ == name && #[trigger] call_ensures(self.f, (n,), r)
    }

    fn get_description(&self, name: &str) -> (r: Result<Option<String>, ProviderError>) {
        proof {
            use_type_invariant(&*self);
        }
        let r = (self.f)(name);
        proof {
            assert(call_ensures(self.f, (name,), r));
        }
        r
    }
}

/// Adapter letting any matching closure act as a translator. The constructor
/// demands a closure that accepts every source text.
pub struct FnTranslator<F: Fn(&str) -> Result<String, ProviderError>> {
    f: F,
}

impl<F: Fn(&str) -> Result<String, ProviderError>> FnTranslator<F> {
    /// The held closure accepts every source text.
    #[verifier::type_invariant]
    spec fn always_callable(self) -> bool {
        forall|source: &str| call_requires(self.f, (source,))
    }

    /// Wraps a closure that accepts every source text. The adapter's
    /// postcondition is exactly the closure's: its translation can return
    /// precisely what the closure can return.
    pub fn new(f: F) -> (r: FnTranslator<F>)
        requires
            forall|source: &str| call_requires(f, (source,)),
        ensures
            forall|source: Seq<char>, res: Result<String, ProviderError>|
                #[trigger] r.translate_post(source, res) <==> (exists|n: &str|
                    n@ == source && #[trigger] call_ensures(f, (n,), res)),
    {
        let r = FnTranslator { f };
        proof {
            assert forall|source: Seq<char>, res: Result<String, ProviderError>|
                #[trigger] r.translate_post(source, res) <==> (exists|n: &str|
                    n@ == source && #[trigger] call_ensures(f, (n,), res)) by {
                if r.translate_post(source, res) {
                    let n = choose|n: &str| n@ == source && #[trigger] call_ensures(r.f, (n,), res);
                    assert(n@ == source && call_ensures(f, (n,), res));
                }
                if exists|n: &str| n@ == source && #[trigger] call_ensures(f, (n,), res) {
                    let n = choose|n: &str| n@ == source && #[trigger] call_ensures(f, (n,), res);
                    assert(n@ == source && call_ensures(r.f, (n,), res));
                }
            }
        }
        r
    }
}

impl<F: Fn(&str) -> Result<String, ProviderError>> Translator for FnTranslator<F> {
    /// The wrapped closure's own postcondition.
    closed spec fn translate_post(&self, source: Seq<char>, r: Result<String, ProviderError>) -> bool {
        exists|n: &str| n@ == source && #[trigger] call_ensures(self.f, (n,), r)
    }

    fn translate(&self, source: &str) -> (r: Result<String, ProviderError>) {
        proof {
            use_type_invariant(&*self);
        }
        let r = (self.f)(source);
        proof {
            assert(call_ensures(self.f, (source,), r));
        }
        r
    }
}

/// Relies on String::push_str: appends the characters of `t` to `s`.
#[verifier::external_body]
fn append_str(s: &mut String, t: &str)
    ensures
        final(s)@ == old(s)@ + t@,
{
    s.push_str(t);
}

/// Translator that marks its input instead of reaching the live service, for
/// mock configurations.
pub struct MockTranslator;

impl Translator for MockTranslator {
    /// Prefixes the source text and never fails.
    open spec fn translate_post(&self, source: Seq<char>, r: Result<String, ProviderError>) -> bool {
        r matches Ok(t) && t@ == "MOCKED TRANSLATION: "@ + source
    }

    fn translate(&self, source: &str) -> (r: Result<String, ProviderError>) {
        let mut out: String = "MOCKED TRANSLATION: ".to_owned();
        append_str(&mut out, source);
        Ok(out)
    }
}

} // verus!
