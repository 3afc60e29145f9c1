use vstd::prelude::*;

use crate::error::PipelineError;

verus! {

/// The views of a sequence of strings.
pub open spec fn string_views(v: Seq<String>) -> Seq<Seq<char>> {
    v.map_values(|s: String| s@)
}

/// A model is selected when nothing is requested or its name is requested;
/// requested names that match no model are ignored.
pub open spec fn is_requested(requested: Seq<Seq<char>>, name: Seq<char>) -> bool {
    requested.len() == 0 || requested.contains(name)
}

/// Positions, in registry order, of the first `k` models that are selected.
pub open spec fn resolved(names: Seq<Seq<char>>, requested: Seq<Seq<char>>, k: int) -> Seq<int>
    decreases k,
{
    if k <= 0 {
        Seq::empty()
    } else {
        let prev = resolved(names, requested, k - 1);
        if is_requested(requested, names[k - 1]) {
            prev.push(k - 1)
        } else {
            prev
        }
    }
}

/// The named results of the first `k` selected models, in order, leaving
/// out each model whose outcome is missing.
pub open spec fn assembled<T>(
    names: Seq<Seq<char>>,
    selected: Seq<usize>,
    outcomes: Seq<Option<T>>,
    k: int,
) -> Seq<(Seq<char>, T)>
    decreases k,
{
    if k <= 0 {
        Seq::empty()
    } else {
        let prev = assembled(names, selected, outcomes, k - 1);
        match outcomes[k - 1] {
            Some(v) => prev.push((names[selected[k - 1] as int], v)),
            None => prev,
        }
    }
}

/// The view of a list of named values.
pub open spec fn named_views<T>(v: Seq<(String, T)>) -> Seq<(Seq<char>, T)> {
    v.map_values(|p: (String, T)| (p.0@, p.1))
}

/// No name occurs twice.
pub open spec fn names_unique(names: Seq<Seq<char>>) -> bool {
    forall|i: int, j: int| 0 <= i < j < names.len() ==> names[i] != names[j]
}

/// Each name followed by a line break.
pub open spec fn listing(names: Seq<Seq<char>>) -> Seq<char>
    decreases names.len(),
{
    if names.len() == 0 {
        Seq::empty()
    } else {
        listing(names.drop_last()) + names.last() + seq!['\n']
    }
}

/// The pieces of `s` between commas, as `str::split(',')` gives them: one
/// more piece than there are commas.
pub open spec fn split_commas(s: Seq<char>) -> Seq<Seq<char>>
    decreases s.len(),
{
    if s.len() == 0 {
        seq![Seq::<char>::empty()]
    } else {
        let prev = split_commas(s.drop_last());
        if s.last() == ',' {
            prev.push(Seq::empty())
        } else {
            prev.update(prev.len() - 1, prev.last().push(s.last()))
        }
    }
}

/// The model names of a delimited request parameter: none when it is absent
/// or empty, else its comma-separated pieces.
pub open spec fn requested_names(param: Option<Seq<char>>) -> Seq<Seq<char>> {
    match param {
        None => Seq::empty(),
        Some(s) => if s.len() == 0 {
            Seq::empty()
        } else {
            split_commas(s)
        },
    }
}

/// The view of an optional string.
pub open spec fn option_view(o: Option<String>) -> Option<Seq<char>> {
    match o {
        Some(s) => Some(s@),
        None => None,
    }
}

/// Whether `name` is one of `names`.
fn contains_name(names: &Vec<String>, name: &String) -> (r: bool)
    ensures
        r == string_views(names@).contains(name@),
{
    let mut i: usize = 0;
    while i < names.len()
        invariant
            i <= names@.len(),
            forall|j: int| 0 <= j < i ==> names@[j]@ != name@,
        decreases names@.len() - i,
    {
        if names[i] == *name {
            assert(string_views(names@)[i as int] == name@);
            return true;
        }
        i = i + 1;
    }
    assert forall|j: int| 0 <= j < string_views(names@).len() implies string_views(names@)[j]
        != name@ by {
        assert(names@[j]@ != name@);
    }
    false
}

/// Splits a delimited list of model names. An absent or empty list names
/// no model, which selects every model.
pub fn parse_model_subset(param: Option<String>) -> (r: Vec<String>)
    ensures
        string_views(r@) == requested_names(option_view(param)),
{
    let ghost pv = option_view(param);
    match param {
        None => Vec::new(),
        Some(list) => {
            let s: &str = list.as_str();
            let n: usize = s.unicode_len();
            if n == 0 {
                let r: Vec<String> = Vec::new();
                assert(string_views(r@) =~= requested_names(pv));
                return r;
            }
            let mut pieces: Vec<String> = Vec::new();
            let mut start: usize = 0;
            let mut i: usize = 0;
            assert(string_views(pieces@) =~= Seq::<Seq<char>>::empty());
            assert(s@.subrange(0, 0) =~= Seq::<char>::empty());
            assert(string_views(pieces@).push(s@.subrange(0, 0)) =~= seq![Seq::<char>::empty()]);
            while i < n
                invariant
                    n == s@.len(),
                    start <= i <= n,
                    string_views(pieces@).push(s@.subrange(start as int, i as int)) == split_commas(
                        s@.subrange(0, i as int),
                    ),
                decreases n - i,
            {
                let ghost prefix = s@.subrange(0, i + 1);
                assert(prefix.drop_last() =~= s@.subrange(0, i as int));
                let ch: char = s.get_char(i);
                let ghost old_views = string_views(pieces@);
                let ghost prev = split_commas(s@.subrange(0, i as int));
                assert(prefix.len() == i + 1 && prefix.last() == ch);
                if ch == ',' {
                    let piece: String = String::from_str(s.substring_char(start, i));
                    pieces.push(piece);
                    assert(string_views(pieces@) =~= old_views.push(s@.subrange(start as int, i as int)));
                    start = i + 1;
                    assert(s@.subrange(start as int, i + 1) =~= Seq::<char>::empty());
                    assert(split_commas(prefix) == prev.push(Seq::empty()));
                    assert(string_views(pieces@).push(s@.subrange(start as int, i + 1)) =~= split_commas(
                        prefix,
                    ));
                } else {
                    assert(split_commas(prefix) == prev.update(prev.len() - 1, prev.last().push(ch)));
                    assert(s@.subrange(start as int, i + 1) =~= s@.subrange(start as int, i as int).push(ch));
                    assert(string_views(pieces@).push(s@.subrange(start as int, i + 1)) =~= split_commas(
                        prefix,
                    ));
                }
                i = i + 1;
            }
            let last: String = String::from_str(s.substring_char(start, n));
            pieces.push(last);
            assert(s@.subrange(0, n as int) =~= s@);
            assert(string_views(pieces@) =~= requested_names(pv));
            pieces
        },
    }
}

/// The fixed, ordered set of models, by name; names are unique and the
/// membership never changes.
pub struct ModelRegistry {
    names: Vec<String>,
}

impl View for ModelRegistry {
    type V = Seq<Seq<char>>;

    closed spec fn view(&self) -> Seq<Seq<char>> {
        string_views(self.names@)
    }
}

impl ModelRegistry {
    /// A registry of the given models in the given order; `None` when a name
    /// occurs twice.
    pub fn new(names: Vec<String>) -> (r: Option<ModelRegistry>)
        ensures
            r is Some <==> names_unique(string_views(names@)),
            r matches Some(reg) ==> reg@ == string_views(names@),
    {
        let ghost views = string_views(names@);
        let mut i: usize = 0;
        while i < names.len()
            invariant
                views == string_views(names@),
                i <= names@.len(),
                forall|a: int, b: int| 0 <= a < b < i ==> views[a] != views[b],
            decreases names@.len() - i,
        {
            let mut j: usize = 0;
            while j < i
                invariant
                    views == string_views(names@),
                    j <= i < names@.len(),
                    forall|a: int, b: int| 0 <= a < b < i ==> views[a] != views[b],
                    forall|a: int| 0 <= a < j ==> views[a] != views[i as int],
                decreases i - j,
            {
                if names[j] == names[i] {
                    assert(views[j as int] == views[i as int]);
                    return None;
                }
                j = j + 1;
            }
            i = i + 1;
        }
        Some(ModelRegistry { names })
    }

    /// Number of models.
    pub fn len(&self) -> (r: usize)
        ensures
            r == self@.len(),
    {
        self.names.len()
    }

    /// The names of all models, in registry order.
    pub fn list(&self) -> (r: Vec<String>)
        ensures
            string_views(r@) == self@,
    {
        let r = self.names.clone();
        assert(string_views(r@) =~= self@);
        r
    }

    /// The names of all models, each followed by a line break.
    pub fn format_list(&self) -> (r: String)
        ensures
            r@ == listing(self@),
    {
        let mut out: String = String::new();
        let mut i: usize = 0;
        while i < self.names.len()
            invariant
                i <= self@.len(),
                self@ == string_views(self.names@),
                out@ == listing(self@.subrange(0, i as int)),
            decreases self@.len() - i,
        {
            out.append(self.names[i].as_str());
            out.append("\n");
            proof {
                reveal_strlit("\n");
                assert(self@.subrange(0, i + 1).drop_last() =~= self@.subrange(0, i as int));
            }
            i = i + 1;
        }
        assert(self@.subrange(0, i as int) =~= self@);
        out
    }

    /// The answer to a metadata query: the listing of all models when no
    /// model name is given (absent or empty), otherwise nothing.
    pub fn model_info(&self, model_name: Option<String>) -> (r: String)
        ensures
            r@ == match option_view(model_name) {
                Some(s) => if s.len() == 0 {
                    listing(self@)
                } else {
                    Seq::empty()
                },
                None => listing(self@),
            },
    {
        let asked_all: bool = match &model_name {
            Some(s) => s.as_str().unicode_len() == 0,
            None => true,
        };
        if asked_all {
            self.format_list()
        } else {
            String::new()
        }
    }

    /// Positions, in registry order, of the models whose name is requested;
    /// every model when nothing is requested. Unknown names are ignored.
    pub fn resolve(&self, requested: &Vec<String>) -> (r: Vec<usize>)
        ensures
            r@.map_values(|i: usize| i as int) == resolved(self@, string_views(requested@), self@.len() as int),
    {
        let ghost req = string_views(requested@);
        let mut out: Vec<usize> = Vec::new();
        let mut i: usize = 0;
        while i < self.names.len()
            invariant
                i <= self@.len(),
                self@ == string_views(self.names@),
                req == string_views(requested@),
                out@.map_values(|k: usize| k as int) == resolved(self@, req, i as int),
            decreases self@.len() - i,
        {
            let wanted: bool = requested.len() == 0 || contains_name(requested, &self.names[i]);
            if wanted {
                out.push(i);
            }
            assert(out@.map_values(|k: usize| k as int) =~= resolved(self@, req, i + 1));
            i = i + 1;
        }
        out
    }

    /// Pairs each selected model's name with its outcome, in the order
    /// given, leaving out the models whose outcome is missing.
    pub fn assemble<T>(&self, selected: &Vec<usize>, outcomes: Vec<Option<T>>) -> (r: Vec<(String, T)>)
        requires
            selected@.len() == outcomes@.len(),
            forall|i: int| 0 <= i < selected@.len() ==> selected@[i] < self@.len(),
        ensures
            named_views(r@) == assembled(self@, selected@, outcomes@, outcomes@.len() as int),
    {
        let ghost all = outcomes@;
        let mut rest = outcomes;
        let mut out: Vec<(String, T)> = Vec::new();
        let mut i: usize = 0;
        while i < selected.len()
            invariant
                i <= selected@.len(),
                selected@.len() == all.len(),
                forall|k: int| 0 <= k < selected@.len() ==> selected@[k] < self@.len(),
                self@ == string_views(self.names@),
                rest@ == all.subrange(i as int, all.len() as int),
                named_views(out@) == assembled(self@, selected@, all, i as int),
            decreases selected@.len() - i,
        {
            let o = rest.remove(0);
            assert(o == all[i as int]);
            match o {
                Some(v) => {
                    let name = self.names[selected[i]].clone();
                    out.push((name, v));
                },
                None => {},
            }
            assert(named_views(out@) =~= assembled(self@, selected@, all, i + 1));
            i = i + 1;
        }
        out
    }
}

/// Pairs each class label with its score, in label order; an
/// `InferenceError` when the counts differ.
pub fn label_scores<T: Copy>(class_names: &Vec<String>, scores: &Vec<T>) -> (r: Result<
    Vec<(String, T)>,
    PipelineError,
>)
    ensures
        r is Err <==> class_names@.len() != scores@.len(),
        r is Err ==> r == Err::<Vec<(String, T)>, PipelineError>(PipelineError::InferenceError),
        r matches Ok(v) ==> named_views(v@) == Seq::new(
            class_names@.len(),
            |i: int| (class_names@[i]@, scores@[i]),
        ),
{
    if class_names.len() != scores.len() {
        return Err(PipelineError::InferenceError);
    }
    let mut out: Vec<(String, T)> = Vec::new();
    let mut i: usize = 0;
    while i < class_names.len()
        invariant
            i <= class_names@.len(),
            class_names@.len() == scores@.len(),
            out@.len() == i,
            forall|k: int|
                0 <= k < i ==> (#[trigger] out@[k]).0@ == class_names@[k]@ && out@[k].1
                    == scores@[k],
        decreases class_names@.len() - i,
    {
        out.push((class_names[i].clone(), scores[i]));
        i = i + 1;
    }
    assert(named_views(out@) =~= Seq::new(class_names@.len(), |k: int| (class_names@[k]@, scores@[k])));
    Ok(out)
}

/// Requesting nothing selects every model, in registry order.
pub proof fn law_resolve_nothing_requested(names: Seq<Seq<char>>, k: int)
    requires
        0 <= k <= names.len(),
    ensures
        resolved(names, Seq::empty(), k) == Seq::new(k as nat, |i: int| i),
    decreases k,
{
    if k > 0 {
        law_resolve_nothing_requested(names, k - 1);
        assert(resolved(names, Seq::empty(), k) =~= Seq::new(k as nat, |i: int| i));
    } else {
        assert(resolved(names, Seq::empty(), k) =~= Seq::new(k as nat, |i: int| i));
    }
}

/// Requesting only names that no model has selects no model.
pub proof fn law_resolve_unknown_names(names: Seq<Seq<char>>, requested: Seq<Seq<char>>, k: int)
    requires
        requested.len() > 0,
        forall|i: int| 0 <= i < names.len() ==> !requested.contains(#[trigger] names[i]),
        0 <= k <= names.len(),
    ensures
        resolved(names, requested, k) == Seq::<int>::empty(),
    decreases k,
{
    if k > 0 {
        law_resolve_unknown_names(names, requested, k - 1);
        assert(!requested.contains(names[k - 1]));
    }
}

/// Requesting the one name of a model of a registry with unique names
/// selects exactly that model.
pub proof fn law_resolve_single_name(names: Seq<Seq<char>>, j: int)
    requires
        names_unique(names),
        0 <= j < names.len(),
    ensures
        resolved(names, seq![names[j]], names.len() as int) == seq![j],
{
    lemma_resolve_single_prefix(names, j, names.len() as int);
}

proof fn lemma_resolve_single_prefix(names: Seq<Seq<char>>, j: int, k: int)
    requires
        names_unique(names),
        0 <= j < names.len(),
        0 <= k <= names.len(),
    ensures
        resolved(names, seq![names[j]], k) == if k > j {
            seq![j]
        } else {
            Seq::<int>::empty()
        },
    decreases k,
{
    let req = seq![names[j]];
    if k > 0 {
        lemma_resolve_single_prefix(names, j, k - 1);
        if k - 1 == j {
            assert(req.contains(names[j])) by {
                assert(req[0] == names[j]);
            }
            assert(Seq::<int>::empty().push(j) =~= seq![j]);
        } else {
            assert(names[k - 1] != names[j]);
            assert(!req.contains(names[k - 1])) by {
                if req.contains(names[k - 1]) {
                    let w = choose|w: int| 0 <= w < req.len() && req[w] == names[k - 1];
                    assert(w == 0);
                }
            }
        }
    }
}

/// The named result of the `i`-th selected model, skipping the one at `m`.
pub open spec fn entry_skipping<T>(
    names: Seq<Seq<char>>,
    selected: Seq<usize>,
    outcomes: Seq<Option<T>>,
    m: int,
    i: int,
) -> (Seq<char>, T) {
    let j = if i < m {
        i
    } else {
        i + 1
    };
    (names[selected[j] as int], outcomes[j]->Some_0)
}

/// When every selected model but the one at `m` yields an outcome, the
/// result holds exactly the others, in order.
pub proof fn law_one_model_missing<T>(
    names: Seq<Seq<char>>,
    selected: Seq<usize>,
    outcomes: Seq<Option<T>>,
    m: int,
)
    requires
        selected.len() == outcomes.len(),
        0 <= m < outcomes.len(),
        outcomes[m] is None,
        forall|j: int| 0 <= j < outcomes.len() && j != m ==> #[trigger] outcomes[j] is Some,
    ensures
        assembled(names, selected, outcomes, outcomes.len() as int) == Seq::new(
            (outcomes.len() - 1) as nat,
            |i: int| entry_skipping(names, selected, outcomes, m, i),
        ),
{
    lemma_one_missing_prefix(names, selected, outcomes, m, outcomes.len() as int);
}

proof fn lemma_one_missing_prefix<T>(
    names: Seq<Seq<char>>,
    selected: Seq<usize>,
    outcomes: Seq<Option<T>>,
    m: int,
    k: int,
)
    requires
        selected.len() == outcomes.len(),
        0 <= m < outcomes.len(),
        outcomes[m] is None,
        forall|j: int| 0 <= j < outcomes.len() && j != m ==> #[trigger] outcomes[j] is Some,
        0 <= k <= outcomes.len(),
    ensures
        assembled(names, selected, outcomes, k) == Seq::new(
            (if k > m {
                k - 1
            } else {
                k
            }) as nat,
            |i: int| entry_skipping(names, selected, outcomes, m, i),
        ),
    decreases k,
{
    if k > 0 {
        lemma_one_missing_prefix(names, selected, outcomes, m, k - 1);
        if k - 1 != m {
            assert(outcomes[k - 1] is Some);
        }
        assert(assembled(names, selected, outcomes, k) =~= Seq::new(
            (if k > m {
                k - 1
            } else {
                k
            }) as nat,
            |i: int| entry_skipping(names, selected, outcomes, m, i),
        ));
    } else {
        assert(assembled(names, selected, outcomes, k) =~= Seq::new(
            0,
            |i: int| entry_skipping(names, selected, outcomes, m, i),
        ));
    }
}

} // verus!
