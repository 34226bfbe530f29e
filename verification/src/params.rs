use vstd::prelude::*;

use crate::error::{LoadError, LoadErrorView, ValueKind};

verus! {

/// The value of one scene parameter. Values that the library never interprets
/// itself (fractional numbers, vectors, matrices) are kept as their source text.
#[derive(Debug, PartialEq, Eq)]
pub enum ParamValue {
    Str(String),
    Int(i64),
    Other(String),
}

/// [`ParamValue`] with its strings taken as character sequences.
pub enum ParamValueView {
    Str(Seq<char>),
    Int(i64),
    Other(Seq<char>),
}

impl View for ParamValue {
    type V = ParamValueView;

    open spec fn view(&self) -> ParamValueView {
        match self {
            ParamValue::Str(s) => ParamValueView::Str(s@),
            ParamValue::Int(i) => ParamValueView::Int(*i),
            ParamValue::Other(s) => ParamValueView::Other(s@),
        }
    }
}

/// A numeric parameter as written in the scene: an integer, or the source text
/// of a fractional number, which the library carries without interpreting.
#[derive(Debug, Clone, PartialEq, Eq)]
pub enum Number {
    Int(i64),
    Text(String),
}

/// [`Number`] with its text taken as a character sequence.
pub enum NumberView {
    Int(i64),
    Text(Seq<char>),
}

impl View for Number {
    type V = NumberView;

    open spec fn view(&self) -> NumberView {
        match self {
            Number::Int(i) => NumberView::Int(*i),
            Number::Text(s) => NumberView::Text(s@),
        }
    }
}

/// An optional number taken by its view.
pub open spec fn opt_number_view(n: Option<Number>) -> Option<NumberView> {
    match n {
        Some(v) => Some(v@),
        None => None,
    }
}

/// Abstract state of a parameter block: its name (used in messages), its keys in
/// order, the value of each key, and whether each key has been read yet.
pub struct ParamsView {
    pub name: Seq<char>,
    pub keys: Seq<Seq<char>>,
    pub values: Seq<ParamValueView>,
    pub used: Seq<bool>,
}

/// A named block of `key -> value` parameters describing one scene object.
/// Reading a key marks it as used so that keys nobody read can be reported.
pub struct InputParams {
    name: String,
    keys: Vec<String>,
    values: Vec<ParamValue>,
    used: Vec<bool>,
}

/// The keys hold no duplicates.
pub open spec fn keys_distinct(keys: Seq<Seq<char>>) -> bool {
    forall|i: int, j: int| 0 <= i < keys.len() && 0 <= j < keys.len() && i != j ==> keys[i] != keys[j]
}

/// Position of `key` among `keys`, or -1 when it is absent.
pub open spec fn key_index(keys: Seq<Seq<char>>, key: Seq<char>) -> int {
    if exists|i: int| 0 <= i < keys.len() && keys[i] == key {
        choose|i: int| 0 <= i < keys.len() && keys[i] == key
    } else {
        -1
    }
}

impl ParamsView {
    pub open spec fn wf(self) -> bool {
        &&& self.values.len() == self.keys.len()
        &&& self.used.len() == self.keys.len()
        &&& keys_distinct(self.keys)
    }

    pub open spec fn contains(self, key: Seq<char>) -> bool {
        exists|i: int| 0 <= i < self.keys.len() && self.keys[i] == key
    }

    /// The value of `key`, if present.
    pub open spec fn lookup(self, key: Seq<char>) -> Option<ParamValueView> {
        let i = key_index(self.keys, key);
        if i >= 0 {
            Some(self.values[i])
        } else {
            None
        }
    }

    /// The block after `key` has been read: the key, if present, becomes used.
    pub open spec fn mark_used(self, key: Seq<char>) -> ParamsView {
        let i = key_index(self.keys, key);
        if i >= 0 {
            ParamsView { used: self.used.update(i, true), ..self }
        } else {
            self
        }
    }

    /// The keys not read so far, in their order.
    pub open spec fn unused_keys(self) -> Seq<Seq<char>> {
        self.keys.filter(|k: Seq<char>| {
            let i = key_index(self.keys, k);
            i >= 0 && !self.used[i]
        })
    }

    /// Reading `key` as a string: the new state of the block and the outcome.
    pub open spec fn get_str(self, key: Seq<char>) -> (ParamsView, Result<Seq<char>, LoadErrorView>) {
        match self.lookup(key) {
            None => (self, Err(LoadErrorView::MissingKey { env: self.name, key })),
            Some(ParamValueView::Str(s)) => (self.mark_used(key), Ok(s)),
            Some(_) => (
                self.mark_used(key),
                Err(LoadErrorView::WrongType { env: self.name, key, expected: ValueKind::Str }),
            ),
        }
    }

    /// Reading the source text of a value the library does not interpret: the new
    /// state of the block and the outcome.
    pub open spec fn get_other(self, key: Seq<char>) -> (ParamsView, Result<Seq<char>, LoadErrorView>) {
        match self.lookup(key) {
            None => (self, Err(LoadErrorView::MissingKey { env: self.name, key })),
            Some(ParamValueView::Other(s)) => (self.mark_used(key), Ok(s)),
            Some(_) => (
                self.mark_used(key),
                Err(LoadErrorView::WrongType { env: self.name, key, expected: ValueKind::Other }),
            ),
        }
    }

    /// Reading `key` as a number (an integer or fractional text): the new state of
    /// the block and the outcome.
    pub open spec fn get_number(self, key: Seq<char>) -> (ParamsView, Result<NumberView, LoadErrorView>) {
        match self.lookup(key) {
            None => (self, Err(LoadErrorView::MissingKey { env: self.name, key })),
            Some(ParamValueView::Int(v)) => (self.mark_used(key), Ok(NumberView::Int(v))),
            Some(ParamValueView::Other(s)) => (self.mark_used(key), Ok(NumberView::Text(s))),
            Some(ParamValueView::Str(_)) => (
                self.mark_used(key),
                Err(LoadErrorView::WrongType { env: self.name, key, expected: ValueKind::Number }),
            ),
        }
    }

    /// Reading a number that has a default: the number when `key` holds one, `None`
    /// (the caller's default) when it is absent or holds a string; the block changes
    /// as [`ParamsView::get_number`] changes it.
    pub open spec fn get_number_or(self, key: Seq<char>) -> (ParamsView, Option<NumberView>) {
        let (p, r) = self.get_number(key);
        match r {
            Ok(n) => (p, Some(n)),
            Err(_) => (p, None),
        }
    }

    /// Reading `key` as an integer: the new state of the block and the outcome.
    pub open spec fn get_int(self, key: Seq<char>) -> (ParamsView, Result<i64, LoadErrorView>) {
        match self.lookup(key) {
            None => (self, Err(LoadErrorView::MissingKey { env: self.name, key })),
            Some(ParamValueView::Int(v)) => (self.mark_used(key), Ok(v)),
            Some(_) => (
                self.mark_used(key),
                Err(LoadErrorView::WrongType { env: self.name, key, expected: ValueKind::Int }),
            ),
        }
    }
}

impl View for InputParams {
    type V = ParamsView;

    closed spec fn view(&self) -> ParamsView {
        ParamsView {
            name: self.name@,
            keys: self.keys@.map_values(|k: String| k@),
            values: self.values@.map_values(|v: ParamValue| v@),
            used: self.used@,
        }
    }
}

/// Among distinct keys, a key found at `i` has position `i`.
pub proof fn lemma_key_index_found(keys: Seq<Seq<char>>, key: Seq<char>, i: int)
    requires
        keys_distinct(keys),
        0 <= i < keys.len(),
        keys[i] == key,
    ensures
        key_index(keys, key) == i,
{
}

proof fn lemma_key_index_absent(keys: Seq<Seq<char>>, key: Seq<char>)
    requires
        forall|i: int| 0 <= i < keys.len() ==> keys[i] != key,
    ensures
        key_index(keys, key) == -1,
{
}

/// A key's position is either -1 or a valid index holding that key.
pub proof fn lemma_key_index_range(keys: Seq<Seq<char>>, key: Seq<char>)
    ensures
        key_index(keys, key) == -1 || (0 <= key_index(keys, key) < keys.len() && keys[key_index(
            keys,
            key,
        )] == key),
{
}

impl InputParams {
    pub closed spec fn wf(&self) -> bool {
        &&& self.values.len() == self.keys.len()
        &&& self.used.len() == self.keys.len()
        &&& keys_distinct(self@.keys)
    }

    /// A well-formed block has a well-formed view, so the laws stated over views
    /// apply to it.
    pub proof fn lemma_view_wf(&self)
        requires
            self.wf(),
        ensures
            self@.wf(),
    {
    }

    /// An empty parameter block called `name`.
    pub fn new(name: String) -> (res: Self)
        ensures
            res.wf(),
            res@.name == name@,
            res@.keys.len() == 0,
    {
        let res = InputParams { name, keys: Vec::new(), values: Vec::new(), used: Vec::new() };
        proof {
            assert(res@.keys =~= Seq::<Seq<char>>::empty());
        }
        res
    }

    /// Position of `key` in the block, if present.
    fn find_key(&self, key: &str) -> (r: Option<usize>)
        requires
            self.wf(),
        ensures
            match r {
                Some(i) => i < self.keys.len() && key_index(self@.keys, key@) == i,
                None => key_index(self@.keys, key@) == -1 && !self@.contains(key@),
            },
    {
        let k = key.to_owned();
        let mut i: usize = 0;
        while i < self.keys.len()
            invariant
                self.wf(),
                k@ == key@,
                i <= self.keys.len(),
                forall|j: int| 0 <= j < i ==> self@.keys[j] != key@,
            decreases self.keys.len() - i,
        {
            if self.keys[i] == k {
                proof {
                    assert(self@.keys[i as int] == key@);
                    lemma_key_index_found(self@.keys, key@, i as int);
                }
                return Some(i);
            }
            assert(self@.keys[i as int] != key@);
            i = i + 1;
        }
        proof {
            lemma_key_index_absent(self@.keys, key@);
        }
        None
    }

    /// Sets `key` to `value`; a new key is appended and starts unread, an existing
    /// key keeps its place and read mark.
    pub fn insert(&mut self, key: &str, value: ParamValue)
        requires
            old(self).wf(),
        ensures
            final(self).wf(),
            final(self)@.name == old(self)@.name,
            final(self)@.lookup(key@) == Some(value@),
            forall|k: Seq<char>| k != key@ ==> #[trigger] final(self)@.lookup(k) == old(self)@.lookup(k),
            old(self)@.contains(key@) ==> final(self)@.keys == old(self)@.keys && final(self)@.used
                == old(self)@.used,
            !old(self)@.contains(key@) ==> final(self)@.keys == old(self)@.keys.push(key@)
                && final(self)@.used == old(self)@.used.push(false),
    {
        let ghost old_view = self@;
        match self.find_key(key) {
            Some(i) => {
                self.values.set(i, value);
                proof {
                    assert(self@.keys =~= old_view.keys);
                    assert(self@.values =~= old_view.values.update(i as int, value@));
                    assert forall|k: Seq<char>| k != key@ implies #[trigger] self@.lookup(k)
                        == old_view.lookup(k) by {
                        lemma_key_index_range(old_view.keys, k);
                    }
                }
            },
            None => {
                self.keys.push(key.to_owned());
                self.values.push(value);
                self.used.push(false);
                proof {
                    assert(self@.keys =~= old_view.keys.push(key@));
                    assert(self@.values =~= old_view.values.push(value@));
                    assert(keys_distinct(self@.keys));
                    lemma_key_index_found(self@.keys, key@, old_view.keys.len() as int);
                    assert forall|k: Seq<char>| k != key@ implies #[trigger] self@.lookup(k)
                        == old_view.lookup(k) by {
                        lemma_key_index_range(old_view.keys, k);
                        let j = key_index(old_view.keys, k);
                        if j >= 0 {
                            lemma_key_index_found(self@.keys, k, j);
                        } else {
                            assert forall|m: int| 0 <= m < self@.keys.len() implies self@.keys[m]
                                != k by {
                                if m < old_view.keys.len() {
                                    if old_view.keys[m] == k {
                                        lemma_key_index_found(old_view.keys, k, m);
                                    }
                                }
                            }
                            lemma_key_index_absent(self@.keys, k);
                        }
                    }
                }
            },
        }
    }

    /// Renames the block; the name appears in error messages.
    pub fn set_name(&mut self, name: String)
        requires
            old(self).wf(),
        ensures
            final(self).wf(),
            final(self)@ == (ParamsView { name: name@, ..old(self)@ }),
    {
        self.name = name;
    }

    pub fn name(&self) -> (res: &str)
        ensures
            res@ == self@.name,
    {
        self.name.as_str()
    }

    pub fn contains_key(&self, key: &str) -> (res: bool)
        requires
            self.wf(),
        ensures
            res == self@.contains(key@),
    {
        proof {
            lemma_key_index_range(self@.keys, key@);
        }
        self.find_key(key).is_some()
    }

    /// Reads `key` as a string and marks it as used.
    pub fn get_str(&mut self, key: &str) -> (res: Result<String, LoadError>)
        requires
            old(self).wf(),
        ensures
            final(self).wf(),
            (final(self)@, match res {
                Ok(s) => Ok(s@),
                Err(e) => Err(e@),
            }) == old(self)@.get_str(key@),
    {
        match self.find_key(key) {
            None => Err(LoadError::MissingKey { env: self.name.clone(), key: key.to_owned() }),
            Some(i) => {
                let ghost old_view = self@;
                self.used.set(i, true);
                proof {
                    assert(self@.keys =~= old_view.keys);
                    assert(self@.values =~= old_view.values);
                    assert(self@ == old_view.mark_used(key@));
                }
                match &self.values[i] {
                    ParamValue::Str(s) => Ok(s.clone()),
                    _ => Err(
                        LoadError::WrongType {
                            env: self.name.clone(),
                            key: key.to_owned(),
                            expected: ValueKind::Str,
                        },
                    ),
                }
            },
        }
    }

    /// Reads the source text of `key` (a value the library does not interpret, such
    /// as a fractional number) and marks it as used.
    pub fn get_other(&mut self, key: &str) -> (res: Result<String, LoadError>)
        requires
            old(self).wf(),
        ensures
            final(self).wf(),
            (final(self)@, match res {
                Ok(s) => Ok(s@),
                Err(e) => Err(e@),
            }) == old(self)@.get_other(key@),
    {
        match self.find_key(key) {
            None => Err(LoadError::MissingKey { env: self.name.clone(), key: key.to_owned() }),
            Some(i) => {
                let ghost old_view = self@;
                self.used.set(i, true);
                proof {
                    assert(self@.keys =~= old_view.keys);
                    assert(self@.values =~= old_view.values);
                    assert(self@ == old_view.mark_used(key@));
                }
                match &self.values[i] {
                    ParamValue::Other(s) => Ok(s.clone()),
                    _ => Err(
                        LoadError::WrongType {
                            env: self.name.clone(),
                            key: key.to_owned(),
                            expected: ValueKind::Other,
                        },
                    ),
                }
            },
        }
    }

    /// Reads `key` as a number (an integer, or the text of a fractional number) and
    /// marks it as used.
    pub fn get_number(&mut self, key: &str) -> (res: Result<Number, LoadError>)
        requires
            old(self).wf(),
        ensures
            final(self).wf(),
            (final(self)@, match res {
                Ok(n) => Ok(n@),
                Err(e) => Err(e@),
            }) == old(self)@.get_number(key@),
    {
        match self.find_key(key) {
            None => Err(LoadError::MissingKey { env: self.name.clone(), key: key.to_owned() }),
            Some(i) => {
                let ghost old_view = self@;
                self.used.set(i, true);
                proof {
                    assert(self@.keys =~= old_view.keys);
                    assert(self@.values =~= old_view.values);
                    assert(self@ == old_view.mark_used(key@));
                }
                match &self.values[i] {
                    ParamValue::Int(v) => Ok(Number::Int(*v)),
                    ParamValue::Other(s) => Ok(Number::Text(s.clone())),
                    ParamValue::Str(_) => Err(
                        LoadError::WrongType {
                            env: self.name.clone(),
                            key: key.to_owned(),
                            expected: ValueKind::Number,
                        },
                    ),
                }
            },
        }
    }

    /// Reads `key` as a number when it holds one; `None`, for the caller's default,
    /// when it is absent or holds a string.
    pub fn get_number_or(&mut self, key: &str) -> (res: Option<Number>)
        requires
            old(self).wf(),
        ensures
            final(self).wf(),
            (final(self)@, opt_number_view(res)) == old(self)@.get_number_or(key@),
    {
        match self.get_number(key) {
            Ok(n) => Some(n),
            Err(_) => None,
        }
    }

    /// Reads `key` as an integer and marks it as used.
    pub fn get_int(&mut self, key: &str) -> (res: Result<i64, LoadError>)
        requires
            old(self).wf(),
        ensures
            final(self).wf(),
            (final(self)@, match res {
                Ok(v) => Ok(v),
                Err(e) => Err(e@),
            }) == old(self)@.get_int(key@),
    {
        match self.find_key(key) {
            None => Err(LoadError::MissingKey { env: self.name.clone(), key: key.to_owned() }),
            Some(i) => {
                let ghost old_view = self@;
                self.used.set(i, true);
                proof {
                    assert(self@.keys =~= old_view.keys);
                    assert(self@.values =~= old_view.values);
                    assert(self@ == old_view.mark_used(key@));
                }
                match &self.values[i] {
                    ParamValue::Int(v) => Ok(*v),
                    _ => Err(
                        LoadError::WrongType {
                            env: self.name.clone(),
                            key: key.to_owned(),
                            expected: ValueKind::Int,
                        },
                    ),
                }
            },
        }
    }

    /// The keys that no reader has asked for, in their order; the caller reports them.
    pub fn check_unused_keys(&self) -> (res: Vec<String>)
        requires
            self.wf(),
        ensures
            res@.map_values(|k: String| k@) == self@.unused_keys(),
    {
        let mut res: Vec<String> = Vec::new();
        let mut i: usize = 0;
        let ghost keys = self@.keys;
        let ghost pred = |k: Seq<char>| {
            let j = key_index(self@.keys, k);
            j >= 0 && !self@.used[j]
        };
        while i < self.keys.len()
            invariant
                self.wf(),
                keys == self@.keys,
                pred == (|k: Seq<char>| {
                    let j = key_index(self@.keys, k);
                    j >= 0 && !self@.used[j]
                }),
                i <= self.keys.len(),
                res@.map_values(|k: String| k@) == keys.take(i as int).filter(pred),
            decreases self.keys.len() - i,
        {
            proof {
                lemma_key_index_found(keys, keys[i as int], i as int);
                assert(keys.take(i + 1).drop_last() =~= keys.take(i as int));
                reveal_with_fuel(Seq::<_>::filter, 1);
            }
            if !self.used[i] {
                let ghost before = res@;
                res.push(self.keys[i].clone());
                proof {
                    assert(res@.map_values(|k: String| k@) =~= before.map_values(|k: String| k@).push(
                        keys[i as int],
                    ));
                }
            }
            i = i + 1;
        }
        proof {
            assert(keys.take(keys.len() as int) =~= keys);
        }
        res
    }
}

/// Once a key of the block has been read, it is no longer reported as unused.
proof fn lemma_read_key_not_unused(p: ParamsView, key: Seq<char>)
    requires
        p.wf(),
        p.contains(key),
    ensures
        !p.mark_used(key).unused_keys().contains(key),
{
    lemma_key_index_range(p.keys, key);
    let q = p.mark_used(key);
    assert(q.keys == p.keys);
    if q.unused_keys().contains(key) {
        let pred = |k: Seq<char>| {
            let j = key_index(q.keys, k);
            j >= 0 && !q.used[j]
        };
        let m = choose|m: int| 0 <= m < q.keys.filter(pred).len() && q.keys.filter(pred)[m] == key;
        q.keys.lemma_filter_pred(pred, m);
        assert(false);
    }
}

/// Reading a key that was just set gives back what was set, and afterwards the key
/// is no longer reported as unused.
pub proof fn params_read_after_insert(p: ParamsView, key: Seq<char>, s: Seq<char>)
    requires
        p.wf(),
        p.lookup(key) == Some(ParamValueView::Str(s)),
    ensures
        p.get_str(key).1 == Ok::<Seq<char>, LoadErrorView>(s),
        !p.get_str(key).0.unused_keys().contains(key),
        p.get_str(key).0.lookup(key) == p.lookup(key),
{
    lemma_key_index_range(p.keys, key);
    lemma_read_key_not_unused(p, key);
}

/// The number a key was set to is read back by `get_number` and by `get_number_or`:
/// an integer as itself, a fractional number as its text; afterwards the key is no
/// longer reported as unused.
pub proof fn params_number_read_after_insert(p: ParamsView, key: Seq<char>, v: ParamValueView)
    requires
        p.wf(),
        p.lookup(key) == Some(v),
        !(v is Str),
    ensures
        p.get_number(key).1 == Ok::<NumberView, LoadErrorView>(
            match v {
                ParamValueView::Int(i) => NumberView::Int(i),
                ParamValueView::Other(t) => NumberView::Text(t),
                ParamValueView::Str(t) => NumberView::Text(t),
            },
        ),
        p.get_number_or(key).1 == Some(
            match v {
                ParamValueView::Int(i) => NumberView::Int(i),
                ParamValueView::Other(t) => NumberView::Text(t),
                ParamValueView::Str(t) => NumberView::Text(t),
            },
        ),
        !p.get_number(key).0.unused_keys().contains(key),
{
    lemma_key_index_range(p.keys, key);
    lemma_read_key_not_unused(p, key);
}

/// What became of a scene object described by a parameter block: either it was
/// built and registered, or its kind is one the caller builds itself (from mesh
/// files, geometry given in fractional numbers, or precomputed tables).
#[derive(Debug, PartialEq, Eq)]
pub enum CreateOutcome {
    Added,
    CallerBuilds { ty: String, name: String },
}

/// [`CreateOutcome`] with its strings taken as character sequences.
pub enum CreateOutcomeView {
    Added,
    CallerBuilds { ty: Seq<char>, name: Seq<char> },
}

impl View for CreateOutcome {
    type V = CreateOutcomeView;

    open spec fn view(&self) -> CreateOutcomeView {
        match self {
            CreateOutcome::Added => CreateOutcomeView::Added,
            CreateOutcome::CallerBuilds { ty, name } => CreateOutcomeView::CallerBuilds {
                ty: ty@,
                name: name@,
            },
        }
    }
}

/// A creation result with the outcome and the error taken by their views.
pub open spec fn outcome_view(r: Result<CreateOutcome, LoadError>) -> Result<CreateOutcomeView, LoadErrorView> {
    match r {
        Ok(o) => Ok(o@),
        Err(e) => Err(e@),
    }
}

/// Whether `s` spells `lit`.
pub fn text_is(s: &String, lit: &str) -> (res: bool)
    ensures
        res == (s@ == lit@),
{
    let l = lit.to_owned();
    l == *s
}

/// `prefix-ty-name`, the name a parameter block takes once its object is known.
pub open spec fn tagged(prefix: Seq<char>, ty: Seq<char>, name: Seq<char>) -> Seq<char> {
    prefix + "-"@ + ty + "-"@ + name
}

/// Builds `prefix-ty-name`.
pub fn tagged_exec(prefix: &str, ty: &String, name: &String) -> (res: String)
    ensures
        res@ == tagged(prefix@, ty@, name@),
{
    let mut res = prefix.to_owned();
    res.append("-");
    res.append(ty.as_str());
    res.append("-");
    res.append(name.as_str());
    res
}

} // verus!
