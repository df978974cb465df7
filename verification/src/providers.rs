//! The provider catalog the proxy serves, and the choices the model pickers
//! make over it.
use vstd::prelude::*;
use crate::text::{chars_of, str_eq, texts, lemma_texts_push, lemma_texts_take_next};

verus! {

/// A provider the proxy offers, and the models it lists.
#[derive(Debug, Clone)]
pub struct ProviderEntry {
    pub id: String,
    /// Whether the provider has what it needs to answer (a key, an endpoint).
    pub configured: bool,
    pub options: Vec<String>,
}

/// Whether a provider lists the model.
pub open spec fn offers(p: ProviderEntry, model: Seq<char>) -> bool {
    exists|j: int| 0 <= j < p.options@.len() && #[trigger] p.options@[j]@ == model
}

/// Index of the first provider that lists the model.
pub open spec fn first_offering(catalog: Seq<ProviderEntry>, model: Seq<char>) -> Option<int>
    decreases catalog.len(),
{
    if catalog.len() == 0 {
        None
    } else if offers(catalog[0], model) {
        Some(0)
    } else {
        match first_offering(catalog.drop_first(), model) {
            Some(i) => Some(i + 1),
            None => None,
        }
    }
}

pub proof fn lemma_first_offering_at(catalog: Seq<ProviderEntry>, model: Seq<char>, i: int)
    requires
        0 <= i <= catalog.len(),
        forall|j: int| 0 <= j < i ==> !offers(#[trigger] catalog[j], model),
        i == catalog.len() || offers(catalog[i], model),
    ensures
        first_offering(catalog, model) == (if i == catalog.len() {
            None::<int>
        } else {
            Some(i)
        }),
    decreases i,
{
    if i > 0 {
        let t = catalog.drop_first();
        assert(!offers(catalog[0], model));
        assert forall|j: int| 0 <= j < i - 1 implies !offers(#[trigger] t[j], model) by {
            assert(t[j] == catalog[j + 1]);
        }
        if i < catalog.len() {
            assert(t[i - 1] == catalog[i]);
        }
        lemma_first_offering_at(t, model, i - 1);
    }
}

/// The provider whose list has the model, for reopening a thread on the
/// model it was answered on; empty when no provider lists it.
pub open spec fn provider_of_spec(catalog: Seq<ProviderEntry>, model: Seq<char>) -> Seq<char> {
    match first_offering(catalog, model) {
        Some(i) => catalog[i].id@,
        None => Seq::empty(),
    }
}

fn lists(options: &Vec<String>, model: &str) -> (r: bool)
    ensures
        r == exists|j: int| 0 <= j < options@.len() && #[trigger] options@[j]@ == model@,
{
    let mut j: usize = 0;
    while j < options.len()
        invariant
            j <= options@.len(),
            forall|k: int| 0 <= k < j ==> #[trigger] options@[k]@ != model@,
        decreases options@.len() - j,
    {
        if str_eq(options[j].as_str(), model) {
            return true;
        }
        j = j + 1;
    }
    false
}

pub fn provider_of(catalog: &[ProviderEntry], model: &str) -> (r: String)
    ensures
        r@ == provider_of_spec(catalog@, model@),
{
    let mut i: usize = 0;
    while i < catalog.len()
        invariant
            i <= catalog@.len(),
            forall|k: int| 0 <= k < i ==> !offers(#[trigger] catalog@[k], model@),
        decreases catalog@.len() - i,
    {
        if lists(&catalog[i].options, model) {
            proof {
                lemma_first_offering_at(catalog@, model@, i as int);
            }
            return catalog[i].id.clone();
        }
        i = i + 1;
    }
    proof {
        lemma_first_offering_at(catalog@, model@, i as int);
        reveal_strlit("");
    }
    String::new()
}

/// The models on offer: the chosen provider's, or every provider's when none
/// is chosen.
pub open spec fn model_options_spec(catalog: Seq<ProviderEntry>, provider: Seq<char>) -> Seq<
    Seq<char>,
>
    decreases catalog.len(),
{
    if catalog.len() == 0 {
        Seq::empty()
    } else {
        let rest = model_options_spec(catalog.drop_last(), provider);
        let p = catalog.last();
        if provider.len() == 0 || p.id@ == provider {
            rest + texts(p.options@)
        } else {
            rest
        }
    }
}

/// The ids of a list of providers, in order.
pub open spec fn ids_of(c: Seq<ProviderEntry>) -> Seq<Seq<char>>
    decreases c.len(),
{
    if c.len() == 0 {
        Seq::empty()
    } else {
        ids_of(c.drop_last()).push(c.last().id@)
    }
}

/// The providers the catalog offers, by id.
pub fn provider_ids(catalog: &Vec<ProviderEntry>) -> (r: Vec<String>)
ensures
    texts(r@) == ids_of(catalog@),
{
    let mut out: Vec<String> = Vec::new();
    let mut i: usize = 0;
    while i < catalog.len()
        invariant
            i <= catalog@.len(),
            texts(out@) == ids_of(catalog@.take(i as int)),
        decreases catalog@.len() - i,
    {
        let ghost prev = out@;
        let id = catalog[i].id.clone();
        out.push(id);
        proof {
            lemma_texts_push(prev, id);
            assert(catalog@.take(i + 1).drop_last() =~= catalog@.take(i as int));
        }
        i = i + 1;
    }
    assert(catalog@.take(i as int) =~= catalog@);
    out
}

/// Models the chosen provider offers; every provider's when none is
/// picked, since the proxy resolves an alias to its provider on its own.
pub fn model_options(catalog: &Vec<ProviderEntry>, provider: &str) -> (r: Vec<String>)
ensures
    texts(r@) == model_options_spec(catalog@, provider@),
{
    let mut out: Vec<String> = Vec::new();
    let any = is_empty_str(provider);
    let mut i: usize = 0;
    while i < catalog.len()
        invariant
            any == (provider@.len() == 0),
            i <= catalog@.len(),
            texts(out@) == model_options_spec(catalog@.take(i as int), provider@),
        decreases catalog@.len() - i,
    {
        proof {
            assert(catalog@.take(i + 1).drop_last() =~= catalog@.take(i as int));
        }
        let p = &catalog[i];
        if any || str_eq(p.id.as_str(), provider) {
            let mut j: usize = 0;
            let ghost start = texts(out@);
            while j < p.options.len()
                invariant
                    j <= p.options@.len(),
                    texts(out@) == start + texts(p.options@.take(j as int)),
                decreases p.options@.len() - j,
            {
                let ghost prev = out@;
                let x = p.options[j].clone();
                out.push(x);
                proof {
                    lemma_texts_push(prev, x);
                    lemma_texts_take_next(p.options@, j as int);
                    assert(texts(out@) =~= start + texts(p.options@.take(j + 1)));
                }
                j = j + 1;
            }
            assert(p.options@.take(j as int) =~= p.options@);
        }
        i = i + 1;
    }
    assert(catalog@.take(i as int) =~= catalog@);
    out
}

/// Whether a string has no characters at all.
fn is_empty_str(s: &str) -> (r: bool)
    ensures
        r == (s@.len() == 0),
{
    chars_of(s).len() == 0
}

/// The providers that can answer: those with what they need configured.
pub open spec fn configured_spec(c: Seq<ProviderEntry>) -> Seq<ProviderEntry>
    decreases c.len(),
{
    if c.len() == 0 {
        Seq::empty()
    } else if c.last().configured {
        configured_spec(c.drop_last()).push(c.last())
    } else {
        configured_spec(c.drop_last())
    }
}

pub fn configured_only(providers: Vec<ProviderEntry>) -> (r: Vec<ProviderEntry>)
    ensures
        r@ == configured_spec(providers@),
{
    let mut out: Vec<ProviderEntry> = Vec::new();
    let mut rest = providers;
    let ghost all = rest@;
    let n = rest.len();
    let mut i: usize = 0;
    while rest.len() > 0
        invariant
            all.len() == n,
            i + rest@.len() == all.len(),
            rest@ == all.skip(i as int),
            out@ == configured_spec(all.take(i as int)),
        decreases rest@.len(),
    {
        let p = rest.remove(0);
        proof {
            assert(all.take(i + 1).drop_last() =~= all.take(i as int));
            assert(all.take(i + 1).last() == all[i as int]);
            assert(rest@ =~= all.skip(i + 1));
        }
        if p.configured {
            out.push(p);
        }
        i = i + 1;
    }
    assert(all.take(i as int) =~= all);
    out
}

/// Whether the model stays picked: it is one the chosen provider offers.
pub open spec fn keeps_model(catalog: Seq<ProviderEntry>, provider: Seq<char>, model: Seq<char>)
    -> bool {
    model_options_spec(catalog, provider).contains(model)
}

/// Whether `model` is among `options`.
pub fn offered(options: &Vec<String>, model: &str) -> (r: bool)
    ensures
        r == texts(options@).contains(model@),
{
    let mut j: usize = 0;
    while j < options.len()
        invariant
            j <= options@.len(),
            forall|k: int| 0 <= k < j ==> #[trigger] options@[k]@ != model@,
        decreases options@.len() - j,
    {
        if str_eq(options[j].as_str(), model) {
            assert(texts(options@)[j as int] == model@);
            return true;
        }
        j = j + 1;
    }
    assert forall|k: int| 0 <= k < texts(options@).len() implies #[trigger] texts(options@)[k]
        != model@ by {
        assert(texts(options@)[k] == options@[k]@);
    }
    false
}

/// A new provider picked: the model stays only when the new provider also
/// offers it (every provider when none is picked), and is cleared otherwise.
pub fn choose_provider(catalog: &Vec<ProviderEntry>, provider: &mut String, model: &mut String, picked: String)
    ensures
        final(provider)@ == picked@,
        final(model)@ == if keeps_model(catalog@, picked@, old(model)@) {
            old(model)@
        } else {
            Seq::empty()
        },
{
    *provider = picked;
    let options = model_options(catalog, provider.as_str());
    if !offered(&options, model.as_str()) {
        *model = String::new();
    }
}

} // verus!
