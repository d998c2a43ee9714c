use crate::crf_utils::str_eq;
use crate::token::Token;
use vstd::pervasive::VecAdditionalExecFns;
use vstd::prelude::*;

verus! {

/// A contiguous run of one or more tokens, carried as a derived text
/// form together with the indices of the tokens it covers.
#[derive(Debug, PartialEq)]
pub struct Ngram {
    pub text: String,
    pub token_indices: Vec<usize>,
}

/// The mathematical model of an `Ngram`.
pub ghost struct NgramView {
    pub text: Seq<char>,
    pub token_indices: Seq<usize>,
}

impl View for Ngram {
    type V = NgramView;

    open spec fn view(&self) -> NgramView {
        NgramView { text: self.text@, token_indices: self.token_indices@ }
    }
}

impl DeepView for Ngram {
    type V = NgramView;

    open spec fn deep_view(&self) -> NgramView {
        self.view()
    }
}

/// What the external preprocessor hands to feature extraction: the
/// tokens of the text, the case- and diacritic-folded n-grams used for
/// gazetteer matching, and the surface-form n-grams used for literal
/// matching. The two n-gram collections are independent inputs.
#[derive(Debug, PartialEq)]
pub struct PreprocessorResult {
    pub tokens: Vec<Token>,
    pub normalized_ngrams: Vec<Ngram>,
    pub formatted_ngrams: Vec<Ngram>,
}

/// The minimal capability feature extraction needs of a gazetteer: a
/// membership test over normalized strings. A gazetteer is never
/// mutated here, so one instance may serve many concurrent calls.
pub trait Gazetteer {
    /// The terms the gazetteer holds, as a membership predicate.
    spec fn spec_contains(&self, term: Seq<char>) -> bool;

    /// Does the gazetteer hold `value`?
    fn contains(&self, value: &str) -> (r: bool)
        ensures
            r == self.spec_contains(value@),
    ;
}

/// A gazetteer backed by a plain list of terms.
#[derive(Debug, PartialEq)]
pub struct ListGazetteer {
    terms: Vec<String>,
}

impl ListGazetteer {
    /// A gazetteer holding exactly the given terms.
    pub fn new(terms: Vec<String>) -> (g: ListGazetteer)
        ensures
            forall|t: Seq<char>| #[trigger] g.spec_contains(t) == terms.deep_view().contains(t),
    {
        let g = ListGazetteer { terms };
        proof {
            assert forall|t: Seq<char>| #[trigger] g.spec_contains(t) == g.terms.deep_view()
                .contains(t) by {
                assert(forall|k: int|
                    0 <= k < g.terms@.len() ==> g.terms.deep_view()[k] == #[trigger] g.terms@[k]@);
            }
        }
        g
    }
}

impl Gazetteer for ListGazetteer {
    closed spec fn spec_contains(&self, term: Seq<char>) -> bool {
        exists|k: int| 0 <= k < self.terms@.len() && #[trigger] self.terms@[k]@ == term
    }

    fn contains(&self, value: &str) -> (r: bool)
        ensures
            r == self.spec_contains(value@),
    {
        let n = self.terms.len();
        let mut i: usize = 0;
        while i < n
            invariant
                n == self.terms@.len(),
                i <= n,
                forall|k: int| 0 <= k < i ==> #[trigger] self.terms@[k]@ != value@,
            decreases n - i,
        {
            if str_eq(self.terms[i].as_str(), value) {
                return true;
            }
            i = i + 1;
        }
        false
    }
}

/// Every token index an n-gram entry covers is a valid index into the
/// token list.
pub open spec fn spec_indices_in_bounds(ngrams: Seq<NgramView>, n_tokens: int) -> bool {
    forall|i: int, j: int|
        #![trigger ngrams[i].token_indices[j]]
        0 <= i < ngrams.len() && 0 <= j < ngrams[i].token_indices.len() ==> (
        ngrams[i].token_indices[j] as int) < n_tokens
}

/// Token index `k` is covered by some n-gram among the first `upto`
/// entries whose text the gazetteer holds.
pub open spec fn spec_gazetteer_hit_upto<G: Gazetteer + ?Sized>(
    ngrams: Seq<NgramView>,
    gazetteer: &G,
    k: int,
    upto: int,
) -> bool
    recommends
        upto <= ngrams.len(),
{
    exists|i: int|
        0 <= i < upto && gazetteer.spec_contains(#[trigger] ngrams[i].text)
            && ngrams[i].token_indices.contains(k as usize)
}

/// Token index `k` is covered by some n-gram entry whose text the
/// gazetteer holds.
pub open spec fn spec_gazetteer_hit<G: Gazetteer + ?Sized>(
    ngrams: Seq<NgramView>,
    gazetteer: &G,
    k: int,
) -> bool {
    spec_gazetteer_hit_upto(ngrams, gazetteer, k, ngrams.len() as int)
}

/// One hit mark per token: true at every index covered by a normalized
/// n-gram whose text the gazetteer holds, false elsewhere. Overlapping
/// n-grams accumulate — a mark once set is never unset. Callers that
/// need the classifier's numeric form map true to 1.0 and false
/// to 0.0.
pub fn has_gazetteer_hits<T: Gazetteer>(
    preprocessed_result: &PreprocessorResult,
    gazetteer: &T,
) -> (r: Vec<bool>)
    requires
        spec_indices_in_bounds(
            preprocessed_result.normalized_ngrams.deep_view(),
            preprocessed_result.tokens@.len() as int,
        ),
    ensures
        r@.len() == preprocessed_result.tokens@.len(),
        forall|k: int|
            0 <= k < r@.len() ==> #[trigger] r@[k] == spec_gazetteer_hit(
                preprocessed_result.normalized_ngrams.deep_view(),
                gazetteer,
                k,
            ),
{
    let ghost ngv = preprocessed_result.normalized_ngrams.deep_view();
    let n_tokens = preprocessed_result.tokens.len();
    let mut result: Vec<bool> = Vec::new();
    while result.len() < n_tokens
        invariant
            result@.len() <= n_tokens,
            forall|k: int| 0 <= k < result@.len() ==> !(#[trigger] result@[k]),
        decreases n_tokens - result@.len(),
    {
        result.push(false);
    }
    let m = preprocessed_result.normalized_ngrams.len();
    let mut i: usize = 0;
    while i < m
        invariant
            m == preprocessed_result.normalized_ngrams@.len(),
            ngv == preprocessed_result.normalized_ngrams.deep_view(),
            spec_indices_in_bounds(ngv, n_tokens as int),
            n_tokens == preprocessed_result.tokens@.len(),
            i <= m,
            result@.len() == n_tokens,
            forall|k: int|
                0 <= k < n_tokens ==> #[trigger] result@[k] == spec_gazetteer_hit_upto(
                    ngv,
                    gazetteer,
                    k,
                    i as int,
                ),
        decreases m - i,
    {
        let ngram = &preprocessed_result.normalized_ngrams[i];
        let ghost before = result@;
        if gazetteer.contains(ngram.text.as_str()) {
            let idx_count = ngram.token_indices.len();
            let mut j: usize = 0;
            while j < idx_count
                invariant
                    idx_count == ngram.token_indices@.len(),
                    ngv == preprocessed_result.normalized_ngrams.deep_view(),
                    i < ngv.len(),
                    ngram == &preprocessed_result.normalized_ngrams@[i as int],
                    ngram@ == ngv[i as int],
                    spec_indices_in_bounds(ngv, n_tokens as int),
                    j <= idx_count,
                    result@.len() == n_tokens,
                    before.len() == n_tokens,
                    forall|k: int|
                        0 <= k < n_tokens ==> #[trigger] result@[k] == (before[k] || exists|jj: int|
                            0 <= jj < j && ngram.token_indices@[jj] == k as usize),
                decreases idx_count - j,
            {
                let idx = ngram.token_indices[j];
                proof {
                    assert((ngv[i as int].token_indices[j as int] as int) < n_tokens as int);
                }
                let ghost mid = result@;
                result.set(idx, true);
                proof {
                    assert forall|k: int|
                        0 <= k < n_tokens implies #[trigger] result@[k] == (before[k] || exists|
                        jj: int,
                    |
                        0 <= jj < j + 1 && ngram.token_indices@[jj] == k as usize) by {
                        if k == idx as int {
                            assert(ngram.token_indices@[j as int] == k as usize);
                        } else {
                            assert(result@[k] == mid[k]);
                            assert(forall|jj: int|
                                0 <= jj < j + 1 && #[trigger] ngram.token_indices@[jj] == k as usize
                                    ==> jj < j);
                        }
                    }
                }
                j = j + 1;
            }
            proof {
                assert forall|k: int|
                    0 <= k < n_tokens implies #[trigger] result@[k] == spec_gazetteer_hit_upto(
                    ngv,
                    gazetteer,
                    k,
                    i + 1,
                ) by {
                    assert(before[k] == spec_gazetteer_hit_upto(ngv, gazetteer, k, i as int));
                    if result@[k] {
                        if before[k] {
                            let w = choose|w: int|
                                0 <= w < i && gazetteer.spec_contains(#[trigger] ngv[w].text)
                                    && ngv[w].token_indices.contains(k as usize);
                            assert(0 <= w < i + 1 && gazetteer.spec_contains(ngv[w].text)
                                && ngv[w].token_indices.contains(k as usize));
                        } else {
                            let jj = choose|jj: int|
                                0 <= jj < idx_count && ngram.token_indices@[jj] == k as usize;
                            assert(ngv[i as int].token_indices.contains(k as usize));
                            assert(gazetteer.spec_contains(ngv[i as int].text));
                        }
                    } else {
                        if spec_gazetteer_hit_upto(ngv, gazetteer, k, i + 1) {
                            let w = choose|w: int|
                                0 <= w < i + 1 && gazetteer.spec_contains(#[trigger] ngv[w].text)
                                    && ngv[w].token_indices.contains(k as usize);
                            if w < i {
                                assert(spec_gazetteer_hit_upto(ngv, gazetteer, k, i as int));
                            } else {
                                let jj = choose|jj: int|
                                    0 <= jj < ngv[i as int].token_indices.len() && ngv[
                                        i as int
                                    ].token_indices[jj] == k as usize;
                                assert(ngram.token_indices@[jj] == k as usize);
                            }
                            assert(false);
                        }
                    }
                }
            }
        } else {
            proof {
                assert forall|k: int|
                    0 <= k < n_tokens implies #[trigger] result@[k] == spec_gazetteer_hit_upto(
                    ngv,
                    gazetteer,
                    k,
                    i + 1,
                ) by {
                    if spec_gazetteer_hit_upto(ngv, gazetteer, k, i + 1)
                        != spec_gazetteer_hit_upto(ngv, gazetteer, k, i as int) {
                        let w = choose|w: int|
                            0 <= w < i + 1 && gazetteer.spec_contains(#[trigger] ngv[w].text)
                                && ngv[w].token_indices.contains(k as usize);
                        assert(w == i);
                        assert(false);
                    }
                }
            }
        }
        i = i + 1;
    }
    result
}

/// Token index `k` is covered by some n-gram among the first `upto`
/// entries whose text equals the literal.
pub open spec fn spec_literal_hit_upto(
    ngrams: Seq<NgramView>,
    literal: Seq<char>,
    k: int,
    upto: int,
) -> bool
    recommends
        upto <= ngrams.len(),
{
    exists|i: int|
        #![trigger ngrams[i]]
        0 <= i < upto && ngrams[i].text == literal && ngrams[i].token_indices.contains(k as usize)
}

/// Token index `k` is covered by some n-gram entry whose text equals
/// the literal.
pub open spec fn spec_literal_hit(ngrams: Seq<NgramView>, literal: Seq<char>, k: int) -> bool {
    spec_literal_hit_upto(ngrams, literal, k, ngrams.len() as int)
}

/// One match mark per token: true at every index covered by a
/// formatted (surface-form) n-gram whose text equals the fixed
/// literal, false elsewhere. Callers that need the classifier's
/// numeric form map true to 1.0 and false to 0.0.
pub fn ngram_matcher(preprocessed_result: &PreprocessorResult, ngram_to_check: &str) -> (r: Vec<
    bool,
>)
    requires
        spec_indices_in_bounds(
            preprocessed_result.formatted_ngrams.deep_view(),
            preprocessed_result.tokens@.len() as int,
        ),
    ensures
        r@.len() == preprocessed_result.tokens@.len(),
        forall|k: int|
            0 <= k < r@.len() ==> #[trigger] r@[k] == spec_literal_hit(
                preprocessed_result.formatted_ngrams.deep_view(),
                ngram_to_check@,
                k,
            ),
{
    let ghost ngv = preprocessed_result.formatted_ngrams.deep_view();
    let n_tokens = preprocessed_result.tokens.len();
    let mut result: Vec<bool> = Vec::new();
    while result.len() < n_tokens
        invariant
            result@.len() <= n_tokens,
            forall|k: int| 0 <= k < result@.len() ==> !(#[trigger] result@[k]),
        decreases n_tokens - result@.len(),
    {
        result.push(false);
    }
    let m = preprocessed_result.formatted_ngrams.len();
    let mut i: usize = 0;
    while i < m
        invariant
            m == preprocessed_result.formatted_ngrams@.len(),
            ngv == preprocessed_result.formatted_ngrams.deep_view(),
            spec_indices_in_bounds(ngv, n_tokens as int),
            n_tokens == preprocessed_result.tokens@.len(),
            i <= m,
            result@.len() == n_tokens,
            forall|k: int|
                0 <= k < n_tokens ==> #[trigger] result@[k] == spec_literal_hit_upto(
                    ngv,
                    ngram_to_check@,
                    k,
                    i as int,
                ),
        decreases m - i,
    {
        let ngram = &preprocessed_result.formatted_ngrams[i];
        let ghost before = result@;
        if str_eq(ngram.text.as_str(), ngram_to_check) {
            let idx_count = ngram.token_indices.len();
            let mut j: usize = 0;
            while j < idx_count
                invariant
                    idx_count == ngram.token_indices@.len(),
                    ngv == preprocessed_result.formatted_ngrams.deep_view(),
                    i < ngv.len(),
                    ngram == &preprocessed_result.formatted_ngrams@[i as int],
                    ngram@ == ngv[i as int],
                    spec_indices_in_bounds(ngv, n_tokens as int),
                    j <= idx_count,
                    result@.len() == n_tokens,
                    before.len() == n_tokens,
                    forall|k: int|
                        0 <= k < n_tokens ==> #[trigger] result@[k] == (before[k] || exists|jj: int|
                            0 <= jj < j && ngram.token_indices@[jj] == k as usize),
                decreases idx_count - j,
            {
                let idx = ngram.token_indices[j];
                proof {
                    assert((ngv[i as int].token_indices[j as int] as int) < n_tokens as int);
                }
                let ghost mid = result@;
                result.set(idx, true);
                proof {
                    assert forall|k: int|
                        0 <= k < n_tokens implies #[trigger] result@[k] == (before[k] || exists|
                        jj: int,
                    |
                        0 <= jj < j + 1 && ngram.token_indices@[jj] == k as usize) by {
                        if k == idx as int {
                            assert(ngram.token_indices@[j as int] == k as usize);
                        } else {
                            assert(result@[k] == mid[k]);
                            assert(forall|jj: int|
                                0 <= jj < j + 1 && #[trigger] ngram.token_indices@[jj] == k as usize
                                    ==> jj < j);
                        }
                    }
                }
                j = j + 1;
            }
            proof {
                assert forall|k: int|
                    0 <= k < n_tokens implies #[trigger] result@[k] == spec_literal_hit_upto(
                    ngv,
                    ngram_to_check@,
                    k,
                    i + 1,
                ) by {
                    assert(before[k] == spec_literal_hit_upto(ngv, ngram_to_check@, k, i as int));
                    if result@[k] {
                        if before[k] {
                            let w = choose|w: int|
                                #![trigger ngv[w]]
                                0 <= w < i && ngv[w].text == ngram_to_check@
                                    && ngv[w].token_indices.contains(k as usize);
                            assert(0 <= w < i + 1 && ngv[w].text == ngram_to_check@
                                && ngv[w].token_indices.contains(k as usize));
                        } else {
                            let jj = choose|jj: int|
                                0 <= jj < idx_count && ngram.token_indices@[jj] == k as usize;
                            assert(ngv[i as int].token_indices.contains(k as usize));
                            assert(ngv[i as int].text == ngram_to_check@);
                        }
                    } else {
                        if spec_literal_hit_upto(ngv, ngram_to_check@, k, i + 1) {
                            let w = choose|w: int|
                                #![trigger ngv[w]]
                                0 <= w < i + 1 && ngv[w].text == ngram_to_check@
                                    && ngv[w].token_indices.contains(k as usize);
                            if w < i {
                                assert(spec_literal_hit_upto(ngv, ngram_to_check@, k, i as int));
                            } else {
                                let jj = choose|jj: int|
                                    0 <= jj < ngv[i as int].token_indices.len() && ngv[
                                        i as int
                                    ].token_indices[jj] == k as usize;
                                assert(ngram.token_indices@[jj] == k as usize);
                            }
                            assert(false);
                        }
                    }
                }
            }
        } else {
            proof {
                assert forall|k: int|
                    0 <= k < n_tokens implies #[trigger] result@[k] == spec_literal_hit_upto(
                    ngv,
                    ngram_to_check@,
                    k,
                    i + 1,
                ) by {
                    if spec_literal_hit_upto(ngv, ngram_to_check@, k, i + 1) != spec_literal_hit_upto(
                        ngv,
                        ngram_to_check@,
                        k,
                        i as int,
                    ) {
                        let w = choose|w: int|
                            #![trigger ngv[w]]
                            0 <= w < i + 1 && ngv[w].text == ngram_to_check@
                                && ngv[w].token_indices.contains(k as usize);
                        assert(w == i);
                        assert(false);
                    }
                }
            }
        }
        i = i + 1;
    }
    result
}

} // verus!
