//! The model registry as the gateway reports it: lookups and grouping.
use vstd::prelude::*;

use crate::text::{concat3, eq_ascii_ci, eq_ignore_ascii_case, str_eq};

verus! {

/// One configured model.
pub struct LlmModelEntry {
    pub name: String,
    pub provider: String,
    pub default: bool,
}

/// The configured models and the defaults.
pub struct LlmModelList {
    pub models: Vec<LlmModelEntry>,
    pub default_model: String,
    pub default_provider: String,
}

/// Why a provider cannot be tested.
pub enum LlmError {
    /// No model of the provider is configured.
    NoModels { provider: String },
}

impl LlmError {
    /// The error text that the console reports.
    pub fn message(&self) -> (r: String)
        ensures
            r@ == match self {
                LlmError::NoModels { provider } => "Provider '"@ + provider@
                    + "' has no configured models"@,
            },
    {
        match self {
            LlmError::NoModels { provider } => concat3(
                "Provider '",
                provider.as_str(),
                "' has no configured models",
            ),
        }
    }
}

/// Index of the first model whose provider is `provider` up to ASCII case, or -1.
pub open spec fn first_of_provider(models: Seq<LlmModelEntry>, provider: Seq<char>) -> int
    decreases models.len(),
{
    if models.len() == 0 {
        -1
    } else {
        let r = first_of_provider(models.drop_last(), provider);
        if r >= 0 {
            r
        } else if eq_ascii_ci(models.last().provider@, provider) {
            models.len() - 1
        } else {
            -1
        }
    }
}

proof fn lemma_first_of_provider_prefix(models: Seq<LlmModelEntry>, m: int, provider: Seq<char>)
    requires
        0 <= m <= models.len(),
        first_of_provider(models.take(m), provider) >= 0,
    ensures
        first_of_provider(models, provider) == first_of_provider(models.take(m), provider),
    decreases models.len() - m,
{
    if m < models.len() {
        assert(models.take(m + 1).drop_last() =~= models.take(m));
        lemma_first_of_provider_prefix(models, m + 1, provider);
    } else {
        assert(models.take(m) =~= models);
    }
}

/// The model to probe for `provider`: the first configured model whose
/// provider matches it up to ASCII case.
pub fn find_provider_model(list: &LlmModelList, provider: &str) -> (r: Result<String, LlmError>)
    ensures
        ({
            let j = first_of_provider(list.models@, provider@);
            match r {
                Ok(name) => j >= 0 && name@ == list.models@[j].name@,
                Err(LlmError::NoModels { provider: p }) => j < 0 && p@ == provider@,
            }
        }),
{
    let mut i: usize = 0;
    while i < list.models.len()
        invariant
            i <= list.models.len(),
            first_of_provider(list.models@.take(i as int), provider@) == -1,
        decreases list.models.len() - i,
    {
        assert(list.models@.take(i + 1).drop_last() =~= list.models@.take(i as int));
        assert(list.models@.take(i + 1).last() == list.models@[i as int]);
        if eq_ignore_ascii_case(list.models[i].provider.as_str(), provider) {
            proof {
                assert(first_of_provider(list.models@.take(i + 1), provider@) == i);
                lemma_first_of_provider_prefix(list.models@, i + 1, provider@);
            }
            let name = list.models[i].name.clone();
            assert(name@ == list.models@[i as int].name@);
            return Ok(name);
        }
        i = i + 1;
    }
    assert(list.models@.take(i as int) =~= list.models@);
    Err(LlmError::NoModels { provider: crate::text::owned(provider) })
}

// ---------------------------------------------------------------------------
// Grouping by provider
// ---------------------------------------------------------------------------

/// `a` comes strictly before `b` in lexicographic order of characters, the
/// order of `str` (byte order of UTF-8 agrees with code point order).
pub open spec fn lex_lt(a: Seq<char>, b: Seq<char>) -> bool
    decreases a.len(),
{
    if a.len() == 0 {
        b.len() > 0
    } else if b.len() == 0 {
        false
    } else if a[0] == b[0] {
        lex_lt(a.drop_first(), b.drop_first())
    } else {
        a[0] < b[0]
    }
}

proof fn lemma_lex_irrefl(a: Seq<char>)
    ensures
        !lex_lt(a, a),
    decreases a.len(),
{
    if a.len() > 0 {
        lemma_lex_irrefl(a.drop_first());
    }
}

proof fn lemma_lex_total(a: Seq<char>, b: Seq<char>)
    requires
        a != b,
    ensures
        lex_lt(a, b) || lex_lt(b, a),
    decreases a.len(),
{
    if a.len() > 0 && b.len() > 0 && a[0] == b[0] {
        if a.drop_first() == b.drop_first() {
            assert(a =~= seq![a[0]] + a.drop_first());
            assert(b =~= seq![b[0]] + b.drop_first());
        }
        lemma_lex_total(a.drop_first(), b.drop_first());
    } else if a.len() == 0 && b.len() == 0 {
        assert(a =~= b);
    } else if a.len() > 0 && b.len() > 0 {
    }
}

proof fn lemma_lex_trans(a: Seq<char>, b: Seq<char>, c: Seq<char>)
    requires
        lex_lt(a, b),
        lex_lt(b, c),
    ensures
        lex_lt(a, c),
    decreases a.len(),
{
    if a.len() > 0 && b.len() > 0 && c.len() > 0 {
        if a[0] == b[0] && b[0] == c[0] {
            lemma_lex_trans(a.drop_first(), b.drop_first(), c.drop_first());
        }
    }
}

/// Whether `a` comes strictly before `b`.
fn less(a: &str, b: &str) -> (r: bool)
    ensures
        r == lex_lt(a@, b@),
{
    let x = crate::text::chars_of(a);
    let y = crate::text::chars_of(b);
    let mut i: usize = 0;
    assert(x@.skip(0) =~= x@);
    assert(y@.skip(0) =~= y@);
    while i < x.len() && i < y.len() && x[i] == y[i]
        invariant
            x@ == a@,
            y@ == b@,
            i <= x.len(),
            i <= y.len(),
            lex_lt(a@, b@) == lex_lt(x@.skip(i as int), y@.skip(i as int)),
        decreases x.len() - i,
    {
        assert(x@.skip(i as int).drop_first() =~= x@.skip(i + 1));
        assert(y@.skip(i as int).drop_first() =~= y@.skip(i + 1));
        i = i + 1;
    }
    if i == x.len() {
        i < y.len()
    } else if i == y.len() {
        false
    } else {
        x[i] < y[i]
    }
}

/// The indices below `n` of the models whose provider is `p`, ascending.
pub open spec fn indices_of(models: Seq<LlmModelEntry>, p: Seq<char>, n: int) -> Seq<usize>
    decreases n,
{
    if n <= 0 {
        Seq::empty()
    } else if models[n - 1].provider@ == p {
        indices_of(models, p, n - 1).push((n - 1) as usize)
    } else {
        indices_of(models, p, n - 1)
    }
}

/// The models of one provider, as indices into the model list.
pub struct ProviderGroup {
    pub provider: String,
    pub models: Vec<usize>,
}

/// `groups` lists the providers of the first `n` models, each once, in
/// ascending order, each with the indices of its models in list order.
pub open spec fn grouped(models: Seq<LlmModelEntry>, groups: Seq<ProviderGroup>, n: int) -> bool {
    &&& forall|g: int, h: int|
        0 <= g < h < groups.len() ==> lex_lt(
            #[trigger] groups[g].provider@,
            #[trigger] groups[h].provider@,
        )
    &&& forall|g: int|
        0 <= g < groups.len() ==> (#[trigger] groups[g]).models@ == indices_of(
            models,
            groups[g].provider@,
            n,
        ) && groups[g].models@.len() > 0
    &&& forall|k: int|
        0 <= k < n ==> exists|g: int|
            0 <= g < groups.len() && (#[trigger] groups[g]).provider@
                == (#[trigger] models[k]).provider@
}

proof fn lemma_indices_empty(models: Seq<LlmModelEntry>, p: Seq<char>, n: int)
    requires
        0 <= n <= models.len(),
        forall|k: int| 0 <= k < n ==> (#[trigger] models[k]).provider@ != p,
    ensures
        indices_of(models, p, n) == Seq::<usize>::empty(),
    decreases n,
{
    if n > 0 {
        lemma_indices_empty(models, p, n - 1);
    }
}

/// The models grouped by provider, providers in ascending order, each
/// provider's models in list order.
// Each model joins the group of its provider; a new provider's group is
// inserted at its place in the order, so the groups stay sorted.
pub fn group_by_provider(models: &Vec<LlmModelEntry>) -> (r: Vec<ProviderGroup>)
    ensures
        grouped(models@, r@, models@.len() as int),
{
    let mut groups: Vec<ProviderGroup> = Vec::new();
    let mut i: usize = 0;
    while i < models.len()
        invariant
            i <= models.len(),
            grouped(models@, groups@, i as int),
        decreases models.len() - i,
    {
        let p = &models[i].provider;
        let ghost pv = models@[i as int].provider@;
        // Look for the group of this provider, or the place of a new one.
        let mut g: usize = 0;
        while g < groups.len() && less(groups[g].provider.as_str(), p.as_str())
            invariant
                g <= groups.len(),
                p@ == pv,
                forall|h: int| 0 <= h < g ==> lex_lt(#[trigger] groups@[h].provider@, pv),
            decreases groups.len() - g,
        {
            g = g + 1;
        }
        let ghost before = groups@;
        if g < groups.len() && str_eq(groups[g].provider.as_str(), p.as_str()) {
            let mut grp = groups.remove(g);
            grp.models.push(i);
            groups.insert(g, grp);
            proof {
                assert forall|h: int| 0 <= h < groups@.len() && h != g implies #[trigger] groups@[h]
                    == before[h] by {
                    if h < g {
                        assert(groups@[h] == before.remove(g as int)[h]);
                    } else {
                        assert(groups@[h] == before.remove(g as int)[h - 1]);
                    }
                }
                assert forall|x: int| 0 <= x < groups@.len() implies (#[trigger] groups@[x]).models@
                    == indices_of(models@, groups@[x].provider@, i + 1) && groups@[x].models@.len()
                    > 0 by {
                    if x != g {
                        assert(groups@[x].provider@ != pv) by {
                            if groups@[x].provider@ == pv {
                                lemma_lex_irrefl(pv);
                            }
                        }
                    }
                }
                assert forall|k: int| 0 <= k < i + 1 implies exists|y: int|
                    0 <= y < groups@.len() && (#[trigger] groups@[y]).provider@
                        == (#[trigger] models@[k]).provider@ by {
                    if k < i {
                        let y = choose|y: int|
                            0 <= y < before.len() && (#[trigger] before[y]).provider@
                                == models@[k].provider@;
                        assert(groups@[y].provider@ == before[y].provider@);
                    } else {
                        assert(groups@[g as int].provider@ == models@[k].provider@);
                    }
                }
                assert forall|x: int, y: int| 0 <= x < y < groups@.len() implies lex_lt(
                    #[trigger] groups@[x].provider@,
                    #[trigger] groups@[y].provider@,
                ) by {
                    assert(groups@[x].provider@ == before[x].provider@);
                    assert(groups@[y].provider@ == before[y].provider@);
                }
            }
        } else {
            proof {
                // No earlier model has this provider.
                assert forall|k: int| 0 <= k < i implies (#[trigger] models@[k]).provider@ != pv by {
                    if models@[k].provider@ == pv {
                        let y = choose|y: int|
                            0 <= y < before.len() && (#[trigger] before[y]).provider@
                                == models@[k].provider@;
                        if y < g {
                            lemma_lex_irrefl(pv);
                        } else if y == g {
                        } else {
                            lemma_lex_total(before[g as int].provider@, pv);
                            lemma_lex_trans(pv, before[g as int].provider@, before[y].provider@);
                            lemma_lex_irrefl(pv);
                        }
                    }
                }
                lemma_indices_empty(models@, pv, i as int);
                if g < groups.len() {
                    lemma_lex_total(before[g as int].provider@, pv);
                }
            }
            let mut idx: Vec<usize> = Vec::new();
            idx.push(i);
            groups.insert(g, ProviderGroup { provider: p.clone(), models: idx });
            proof {
                assert(groups@[g as int].models@ =~= indices_of(models@, pv, i + 1));
                assert forall|x: int| 0 <= x < groups@.len() implies (#[trigger] groups@[x]).models@
                    == indices_of(models@, groups@[x].provider@, i + 1) && groups@[x].models@.len()
                    > 0 by {
                    if x < g {
                        assert(groups@[x] == before[x]);
                        if before[x].provider@ == pv {
                            lemma_lex_irrefl(pv);
                        }
                    } else if x > g {
                        assert(groups@[x] == before[x - 1]);
                        if before[x - 1].provider@ == pv {
                            lemma_lex_trans(pv, before[g as int].provider@, before[x - 1].provider@);
                            lemma_lex_irrefl(pv);
                        }
                    }
                }
                assert forall|x: int, y: int| 0 <= x < y < groups@.len() implies lex_lt(
                    #[trigger] groups@[x].provider@,
                    #[trigger] groups@[y].provider@,
                ) by {
                    if y < g {
                        assert(groups@[x] == before[x] && groups@[y] == before[y]);
                    } else if y == g {
                        assert(groups@[x] == before[x]);
                    } else if x < g {
                        assert(groups@[x] == before[x] && groups@[y] == before[y - 1]);
                        lemma_lex_trans(before[x].provider@, pv, before[g as int].provider@);
                        if y - 1 > g {
                            lemma_lex_trans(
                                before[x].provider@,
                                before[g as int].provider@,
                                before[y - 1].provider@,
                            );
                        }
                    } else if x == g {
                        assert(groups@[y] == before[y - 1]);
                        if y - 1 > g {
                            lemma_lex_trans(pv, before[g as int].provider@, before[y - 1].provider@);
                        }
                    } else {
                        assert(groups@[x] == before[x - 1] && groups@[y] == before[y - 1]);
                    }
                }
                assert forall|k: int| 0 <= k < i + 1 implies exists|y: int|
                    0 <= y < groups@.len() && (#[trigger] groups@[y]).provider@
                        == (#[trigger] models@[k]).provider@ by {
                    if k < i {
                        let y = choose|y: int|
                            0 <= y < before.len() && (#[trigger] before[y]).provider@
                                == models@[k].provider@;
                        if y < g {
                            assert(groups@[y] == before[y]);
                        } else {
                            assert(groups@[y + 1] == before[y]);
                        }
                    } else {
                        assert(groups@[g as int].provider@ == models@[k].provider@);
                    }
                }
            }
        }
        i = i + 1;
    }
    groups
}

proof fn lemma_indices_contains(models: Seq<LlmModelEntry>, p: Seq<char>, n: int, k: int)
    requires
        0 <= k < n <= models.len(),
        models[k].provider@ == p,
    ensures
        indices_of(models, p, n).contains(k as usize),
    decreases n,
{
    if k < n - 1 {
        lemma_indices_contains(models, p, n - 1, k);
        let prev = indices_of(models, p, n - 1);
        let j = choose|j: int| 0 <= j < prev.len() && prev[j] == k as usize;
        if models[n - 1].provider@ == p {
            assert(indices_of(models, p, n)[j] == k as usize);
        }
    } else {
        let cur = indices_of(models, p, n);
        assert(cur[cur.len() - 1] == k as usize);
    }
}

/// Model `k` is listed in the group of its own provider.
pub open spec fn listed_under_provider(
    models: Seq<LlmModelEntry>,
    groups: Seq<ProviderGroup>,
    k: int,
) -> bool {
    exists|g: int|
        0 <= g < groups.len() && (#[trigger] groups[g]).provider@ == models[k].provider@
            && groups[g].models@.contains(k as usize)
}

/// In a grouping of the model list, every model is listed in the group of
/// its own provider.
pub proof fn law_each_model_in_its_group(models: Seq<LlmModelEntry>, groups: Seq<ProviderGroup>)
    requires
        grouped(models, groups, models.len() as int),
    ensures
        forall|k: int| 0 <= k < models.len() ==> #[trigger] listed_under_provider(models, groups, k),
{
    assert forall|k: int| 0 <= k < models.len() implies #[trigger] listed_under_provider(
        models,
        groups,
        k,
    ) by {
        assert(models[k] == models[k]);
        let g = choose|g: int|
            0 <= g < groups.len() && (#[trigger] groups[g]).provider@ == (
            #[trigger] models[k]).provider@;
        lemma_indices_contains(models, models[k].provider@, models.len() as int, k);
        assert(groups[g].models@ == indices_of(models, groups[g].provider@, models.len() as int));
    }
}

/// The note after the default model that names its provider, if one is set.
pub fn default_provider_suffix(provider: &str) -> (r: String)
    ensures
        r@ == if provider@.len() == 0 {
            Seq::<char>::empty()
        } else {
            " ["@ + provider@ + "]"@
        },
{
    if provider.is_empty() {
        String::new()
    } else {
        concat3(" [", provider, "]")
    }
}

} // verus!
