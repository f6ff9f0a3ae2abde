//! A JSON-shaped document model and the layered deep merge of config files.

use vstd::prelude::*;

verus! {

/// A parsed configuration document, in the shape every supported format
/// (TOML, YAML, JSON) maps into.
pub enum Json {
    Null,
    Bool(bool),
    /// A number, kept in its textual form: merging never inspects it.
    Number(String),
    Str(String),
    Array(Vec<Json>),
    Object(JsonObject),
}

/// A JSON object: string keys, each present at most once.
pub struct JsonObject {
    entries: Vec<(String, Json)>,
}

/// The mathematical meaning of a document.
pub enum JsonV {
    Null,
    Bool(bool),
    Number(Seq<char>),
    Str(Seq<char>),
    Array(Seq<JsonV>),
    Object(Map<Seq<char>, JsonV>),
}

pub closed spec fn json_view(j: Json) -> JsonV
    decreases j,
{
    match j {
        Json::Null => JsonV::Null,
        Json::Bool(b) => JsonV::Bool(b),
        Json::Number(s) => JsonV::Number(s@),
        Json::Str(s) => JsonV::Str(s@),
        Json::Array(v) => JsonV::Array(array_view(v@)),
        Json::Object(o) => JsonV::Object(entries_view(o.entries@)),
    }
}

pub closed spec fn array_view(s: Seq<Json>) -> Seq<JsonV>
    decreases s,
{
    if s.len() == 0 {
        Seq::empty()
    } else {
        array_view(s.subrange(0, s.len() - 1)).push(json_view(s[s.len() - 1]))
    }
}

pub closed spec fn entries_view(s: Seq<(String, Json)>) -> Map<Seq<char>, JsonV>
    decreases s,
{
    if s.len() == 0 {
        Map::empty()
    } else {
        entries_view(s.subrange(0, s.len() - 1)).insert(
            s[s.len() - 1].0@,
            json_view(s[s.len() - 1].1),
        )
    }
}

impl View for Json {
    type V = JsonV;

    open spec fn view(&self) -> JsonV {
        json_view(*self)
    }
}

impl View for JsonObject {
    type V = Map<Seq<char>, JsonV>;

    closed spec fn view(&self) -> Map<Seq<char>, JsonV> {
        entries_view(self.entries@)
    }
}


/// The entries of an object hold each key at most once.
pub closed spec fn unique_keys(s: Seq<(String, Json)>) -> bool {
    forall|i: int, j: int|
        0 <= i < s.len() && 0 <= j < s.len() && i != j ==> s[i].0@ != s[j].0@
}

impl JsonObject {
    #[verifier::type_invariant]
    closed spec fn keys_unique(self) -> bool {
        unique_keys(self.entries@)
    }
}

/// Layering `overlay` over `base`: two objects merge key by key (recursively
/// where both hold the key); in every other case the overlay replaces the
/// base outright, so scalars override and arrays are not concatenated.
pub open spec fn merge(base: JsonV, overlay: JsonV) -> JsonV
    decreases base,
{
    match (base, overlay) {
        (JsonV::Object(a), JsonV::Object(b)) => JsonV::Object(
            Map::new(
                |k: Seq<char>| a.dom().contains(k) || b.dom().contains(k),
                |k: Seq<char>|
                    if a.dom().contains(k) && b.dom().contains(k) {
                        merge(a[k], b[k])
                    } else if b.dom().contains(k) {
                        b[k]
                    } else {
                        a[k]
                    },
            ),
        ),
        _ => overlay,
    }
}

/// The key-by-key merge of two objects' maps.
pub open spec fn merge_maps(a: Map<Seq<char>, JsonV>, b: Map<Seq<char>, JsonV>) -> Map<
    Seq<char>,
    JsonV,
> {
    match merge(JsonV::Object(a), JsonV::Object(b)) {
        JsonV::Object(m) => m,
        _ => a,
    }
}

proof fn lemma_entries_dom(s: Seq<(String, Json)>)
    ensures
        forall|k: Seq<char>|
            #![trigger entries_view(s).dom().contains(k)]
            entries_view(s).dom().contains(k) <==> exists|i: int|
                0 <= i < s.len() && (#[trigger] s[i]).0@ == k,
        entries_view(s).dom().finite(),
    decreases s.len(),
{
    if s.len() > 0 {
        let p = s.subrange(0, s.len() - 1);
        lemma_entries_dom(p);
        assert forall|k: Seq<char>|
            #![trigger entries_view(s).dom().contains(k)]
            entries_view(s).dom().contains(k) <==> exists|i: int|
                0 <= i < s.len() && (#[trigger] s[i]).0@ == k by {
            if entries_view(s).dom().contains(k) {
                if k != s[s.len() - 1].0@ {
                    assert(entries_view(p).dom().contains(k));
                    let i: int = choose|i: int| 0 <= i < p.len() && (#[trigger] p[i]).0@ == k;
                    assert(s[i] == p[i]);
                }
            }
            if exists|i: int| 0 <= i < s.len() && (#[trigger] s[i]).0@ == k {
                let i: int = choose|i: int| 0 <= i < s.len() && (#[trigger] s[i]).0@ == k;
                if i < s.len() - 1 {
                    assert(p[i] == s[i]);
                }
            }
        }
    }
}

proof fn lemma_entries_at(s: Seq<(String, Json)>, i: int)
    requires
        unique_keys(s),
        0 <= i < s.len(),
    ensures
        entries_view(s).dom().contains(s[i].0@),
        entries_view(s)[s[i].0@] == json_view(s[i].1),
    decreases s.len(),
{
    let p = s.subrange(0, s.len() - 1);
    if i < s.len() - 1 {
        assert(p[i] == s[i]);
        assert(unique_keys(p)) by {
            assert forall|a: int, b: int|
                0 <= a < p.len() && 0 <= b < p.len() && a != b implies p[a].0@ != p[b].0@ by {
                assert(p[a] == s[a] && p[b] == s[b]);
            }
        }
        lemma_entries_at(p, i);
    }
}

proof fn lemma_entries_remove(s: Seq<(String, Json)>, j: int)
    requires
        unique_keys(s),
        0 <= j < s.len(),
    ensures
        entries_view(s.remove(j)) == entries_view(s).remove(s[j].0@),
        unique_keys(s.remove(j)),
    decreases s.len(),
{
    let n: nat = s.len();
    let p = s.subrange(0, n - 1);
    let k = s[j].0@;
    assert(unique_keys(p)) by {
        assert forall|a: int, b: int|
            0 <= a < p.len() && 0 <= b < p.len() && a != b implies p[a].0@ != p[b].0@ by {
            assert(p[a] == s[a] && p[b] == s[b]);
        }
    }
    assert(unique_keys(s.remove(j))) by {
        let r = s.remove(j);
        assert forall|a: int, b: int|
            0 <= a < r.len() && 0 <= b < r.len() && a != b implies r[a].0@ != r[b].0@ by {
            let sa: int = if a < j { a } else { a + 1 };
            let sb: int = if b < j { b } else { b + 1 };
            assert(r[a] == s[sa] && r[b] == s[sb]);
        }
    }
    lemma_entries_dom(p);
    if j == n - 1 {
        assert(s.remove(j) =~= p);
        if entries_view(p).dom().contains(k) {
            let i: int = choose|i: int| 0 <= i < p.len() && (#[trigger] p[i]).0@ == k;
            assert(p[i] == s[i]);
        }
        assert(entries_view(s).remove(k) =~= entries_view(p));
    } else {
        let pr = p.remove(j);
        assert(s.remove(j) =~= pr.push(s[n - 1]));
        assert(s.remove(j).subrange(0, s.remove(j).len() - 1) =~= pr);
        assert(p[j] == s[j]);
        lemma_entries_remove(p, j);
        assert(s[n - 1].0@ != k);
        assert(entries_view(s.remove(j)) =~= entries_view(s).remove(k));
    }
}

proof fn lemma_entries_push(s: Seq<(String, Json)>, e: (String, Json))
    ensures
        entries_view(s.push(e)) == entries_view(s).insert(e.0@, json_view(e.1)),
{
    assert(s.push(e).subrange(0, s.len() as int) =~= s);
}

/// The position of `key` among `entries`, if it is there.
fn find_key(entries: &Vec<(String, Json)>, key: &String) -> (r: Option<usize>)
    ensures
        r matches Some(j) ==> j < entries@.len() && entries@[j as int].0@ == key@,
        r is None ==> forall|i: int| 0 <= i < entries@.len() ==> (#[trigger] entries@[i]).0@ != key@,
{
    let mut i: usize = 0;
    while i < entries.len()
        invariant
            i <= entries@.len(),
            forall|t: int| 0 <= t < i ==> (#[trigger] entries@[t]).0@ != key@,
        decreases entries@.len() - i,
    {
        if entries[i].0 == *key {
            return Some(i);
        }
        i = i + 1;
    }
    None
}

impl JsonObject {
    /// An object with no keys.
    pub fn new() -> (o: JsonObject)
        ensures
            o@ == Map::<Seq<char>, JsonV>::empty(),
    {
        let o = JsonObject { entries: Vec::new() };
        assert(o@ =~= Map::<Seq<char>, JsonV>::empty());
        o
    }

    /// Sets `key` to `value`, replacing what the key held before.
    pub fn insert(&mut self, key: String, value: Json)
        ensures
            final(self)@ == old(self)@.insert(key@, value@),
    {
        proof {
            use_type_invariant(&*self);
        }
        let mut entries: Vec<(String, Json)> = Vec::new();
        std::mem::swap(&mut entries, &mut self.entries);
        let ghost e0 = entries@;
        match find_key(&entries, &key) {
            Some(j) => {
                proof {
                    lemma_entries_remove(e0, j as int);
                }
                entries.remove(j);
            },
            None => {
                proof {
                    lemma_entries_dom(e0);
                    assert(entries_view(e0).remove(key@) =~= entries_view(e0));
                }
            },
        }
        proof {
            lemma_entries_dom(entries@);
            if exists|i: int| 0 <= i < entries@.len() && (#[trigger] entries@[i]).0@ == key@ {
                let i: int = choose|i: int| 0 <= i < entries@.len() && (#[trigger] entries@[i]).0@ == key@;
                assert(entries_view(entries@).dom().contains(key@));
            }
        }
        let ghost before = entries@;
        entries.push((key, value));
        proof {
            lemma_entries_push(before, entries@.last());
            assert(entries@.subrange(0, before.len() as int) =~= before);
            assert(unique_keys(entries@)) by {
                assert forall|a: int, b: int|
                    0 <= a < entries@.len() && 0 <= b < entries@.len() && a != b implies entries@[a].0@
                    != entries@[b].0@ by {
                    if a < before.len() && b < before.len() {
                        assert(entries@[a] == before[a] && entries@[b] == before[b]);
                    } else if a < before.len() {
                        assert(entries@[a] == before[a]);
                    } else if b < before.len() {
                        assert(entries@[b] == before[b]);
                    }
                }
            }
            assert(entries_view(entries@) =~= entries_view(e0).insert(key@, json_view(value)));
        }
        self.entries = entries;
    }
}


proof fn lemma_push_unique(s: Seq<(String, Json)>, e: (String, Json))
    requires
        unique_keys(s),
        !entries_view(s).dom().contains(e.0@),
    ensures
        unique_keys(s.push(e)),
{
    lemma_entries_dom(s);
    let t = s.push(e);
    assert forall|a: int, b: int|
        0 <= a < t.len() && 0 <= b < t.len() && a != b implies t[a].0@ != t[b].0@ by {
        if a < s.len() && b < s.len() {
            assert(t[a] == s[a] && t[b] == s[b]);
        } else if a < s.len() {
            assert(t[a] == s[a]);
        } else if b < s.len() {
            assert(t[b] == s[b]);
        }
    }
}

proof fn lemma_merge_maps_empty(a: Map<Seq<char>, JsonV>)
    ensures
        merge_maps(a, Map::empty()) == a,
{
    assert(merge_maps(a, Map::empty()) =~= a);
}

proof fn lemma_merge_maps_insert(
    a: Map<Seq<char>, JsonV>,
    b: Map<Seq<char>, JsonV>,
    k: Seq<char>,
    v: JsonV,
)
    requires
        !b.dom().contains(k),
    ensures
        merge_maps(a, b.insert(k, v)) == merge_maps(a, b).insert(
            k,
            if a.dom().contains(k) {
                merge(a[k], v)
            } else {
                v
            },
        ),
{
    assert(merge_maps(a, b.insert(k, v)) =~= merge_maps(a, b).insert(
        k,
        if a.dom().contains(k) {
            merge(a[k], v)
        } else {
            v
        },
    ));
}

/// Layers `overlay` over `base`, as one config file over the files above it.
pub fn deep_merge(base: Json, overlay: Json) -> (r: Json)
    ensures
        r@ == merge(base@, overlay@),
    decreases base@,
{
    let ghost base_v = base@;
    let ghost overlay_v = overlay@;
    match base {
        Json::Object(a) => match overlay {
            Json::Object(b) => {
                proof {
                    use_type_invariant(&a);
                    use_type_invariant(&b);
                }
                let ghost av = a@;
                let JsonObject { entries: mut acc } = a;
                let JsonObject { entries: mut rest } = b;
                let ghost b0 = rest@;
                let ghost n: int = b0.len() as int;
                let ghost mut i: int = 0;
                proof {
                    lemma_entries_dom(acc@);
                    lemma_merge_maps_empty(av);
                    assert(b0.subrange(0, 0) =~= Seq::<(String, Json)>::empty());
                    assert(b0.subrange(0, n) =~= b0);
                }
                while rest.len() > 0
                    invariant
                        unique_keys(acc@),
                        unique_keys(b0),
                        0 <= i <= n,
                        n == b0.len(),
                        rest@ == b0.subrange(i, n),
                        base_v == JsonV::Object(av),
                        base@ == base_v,
                        av.dom().finite(),
                        overlay_v == JsonV::Object(entries_view(b0)),
                        entries_view(acc@) == merge_maps(av, entries_view(b0.subrange(0, i))),
                    decreases rest.len(),
                {
                    let ghost prefix = b0.subrange(0, i);
                    let ghost old_acc = acc@;
                    let (k, v) = rest.remove(0);
                    assert(b0[i] == (k, v));
                    proof {
                        lemma_entries_dom(prefix);
                        if entries_view(prefix).dom().contains(k@) {
                            let t: int = choose|t: int|
                                0 <= t < prefix.len() && (#[trigger] prefix[t]).0@ == k@;
                            assert(prefix[t] == b0[t]);
                        }
                        assert(b0.subrange(0, i + 1) =~= prefix.push(b0[i]));
                        lemma_entries_push(prefix, b0[i]);
                        lemma_merge_maps_insert(av, entries_view(prefix), k@, v@);
                        lemma_entries_dom(old_acc);
                    }
                    match find_key(&acc, &k) {
                        Some(j) => {
                            proof {
                                lemma_entries_at(old_acc, j as int);
                                lemma_entries_remove(old_acc, j as int);
                            }
                            let (_, existing) = acc.remove(j);
                            assert(existing@ == av[k@]);
                            assert(decreases_to!(base_v => existing@));
                            let merged = deep_merge(existing, v);
                            proof {
                                lemma_push_unique(acc@, (k, merged));
                                lemma_entries_push(acc@, (k, merged));
                            }
                            acc.push((k, merged));
                            assert(entries_view(acc@) =~= merge_maps(
                                av,
                                entries_view(b0.subrange(0, i + 1)),
                            ));
                        },
                        None => {
                            proof {
                                lemma_push_unique(acc@, (k, v));
                                lemma_entries_push(acc@, (k, v));
                            }
                            acc.push((k, v));
                        },
                    }
                    proof {
                        i = i + 1;
                    }
                }
                assert(b0.subrange(0, i) =~= b0);
                Json::Object(JsonObject { entries: acc })
            },
            other => other,
        },
        _ => overlay,
    }
}


impl JsonObject {
    /// The value under `key`, if the object holds it.
    pub fn get(&self, key: &str) -> (r: Option<&Json>)
        ensures
            r matches Some(v) ==> self@.dom().contains(key@) && v@ == self@[key@],
            r is None ==> !self@.dom().contains(key@),
    {
        proof {
            use_type_invariant(self);
            lemma_entries_dom(self.entries@);
        }
        let k = key.to_string();
        match find_key(&self.entries, &k) {
            Some(j) => {
                proof {
                    lemma_entries_at(self.entries@, j as int);
                }
                Some(&self.entries[j].1)
            },
            None => None,
        }
    }

    /// The number of keys.
    pub fn len(&self) -> (n: usize)
        ensures
            n == self@.dom().len(),
    {
        proof {
            use_type_invariant(self);
            lemma_entries_len(self.entries@);
        }
        self.entries.len()
    }

    /// The keys, each once.
    pub fn keys(&self) -> (r: Vec<String>)
        ensures
            r@.len() == self@.dom().len(),
            forall|k: Seq<char>|
                #[trigger] self@.dom().contains(k) <==> exists|i: int|
                    0 <= i < r@.len() && (#[trigger] r@[i])@ == k,
    {
        proof {
            use_type_invariant(self);
            lemma_entries_dom(self.entries@);
            lemma_entries_len(self.entries@);
        }
        let mut out: Vec<String> = Vec::new();
        let mut i: usize = 0;
        while i < self.entries.len()
            invariant
                i <= self.entries@.len(),
                out@.len() == i,
                forall|j: int| 0 <= j < i ==> (#[trigger] out@[j]) == self.entries@[j].0,
            decreases self.entries@.len() - i,
        {
            out.push(self.entries[i].0.clone());
            i = i + 1;
        }
        proof {
            assert forall|k: Seq<char>|
                #[trigger] self@.dom().contains(k) <==> exists|i: int|
                    0 <= i < out@.len() && (#[trigger] out@[i])@ == k by {
                if self@.dom().contains(k) {
                    let j: int = choose|j: int| 0 <= j < self.entries@.len() && (#[trigger] self.entries@[j]).0@ == k;
                    assert(out@[j]@ == k);
                }
                if exists|i: int| 0 <= i < out@.len() && (#[trigger] out@[i])@ == k {
                    let j: int = choose|j: int| 0 <= j < out@.len() && (#[trigger] out@[j])@ == k;
                    assert(self.entries@[j].0@ == k);
                }
            }
        }
        out
    }

    /// The entries, each key once, in the order the object keeps them.
    pub fn into_entries(self) -> (r: Vec<(String, Json)>)
        ensures
            forall|i: int, j: int|
                0 <= i < r@.len() && 0 <= j < r@.len() && i != j ==> r@[i].0@ != r@[j].0@,
            forall|i: int|
                0 <= i < r@.len() ==> self@.dom().contains((#[trigger] r@[i]).0@) && self@[r@[i].0@]
                    == r@[i].1@,
            forall|k: Seq<char>|
                #[trigger] self@.dom().contains(k) ==> exists|i: int|
                    0 <= i < r@.len() && (#[trigger] r@[i]).0@ == k,
    {
        proof {
            use_type_invariant(&self);
            lemma_entries_dom(self.entries@);
            assert forall|i: int| 0 <= i < self.entries@.len() implies self@.dom().contains(
                (#[trigger] self.entries@[i]).0@,
            ) && self@[self.entries@[i].0@] == self.entries@[i].1@ by {
                lemma_entries_at(self.entries@, i);
            }
        }
        let JsonObject { entries } = self;
        entries
    }
}

proof fn lemma_entries_len(s: Seq<(String, Json)>)
    requires
        unique_keys(s),
    ensures
        entries_view(s).dom().len() == s.len(),
    decreases s.len(),
{
    if s.len() > 0 {
        let p = s.subrange(0, s.len() - 1);
        assert(unique_keys(p)) by {
            assert forall|a: int, b: int|
                0 <= a < p.len() && 0 <= b < p.len() && a != b implies p[a].0@ != p[b].0@ by {
                assert(p[a] == s[a] && p[b] == s[b]);
            }
        }
        lemma_entries_len(p);
        lemma_entries_dom(p);
        if entries_view(p).dom().contains(s[s.len() - 1].0@) {
            let i: int = choose|i: int| 0 <= i < p.len() && (#[trigger] p[i]).0@ == s[s.len() - 1].0@;
            assert(p[i] == s[i]);
        }
    }
}

proof fn lemma_array_view(s: Seq<Json>)
    ensures
        array_view(s).len() == s.len(),
        forall|i: int| 0 <= i < s.len() ==> #[trigger] array_view(s)[i] == json_view(s[i]),
    decreases s.len(),
{
    if s.len() > 0 {
        lemma_array_view(s.subrange(0, s.len() - 1));
        assert forall|i: int| 0 <= i < s.len() implies #[trigger] array_view(s)[i] == json_view(
            s[i],
        ) by {
            if i < s.len() - 1 {
                assert(s.subrange(0, s.len() - 1)[i] == s[i]);
            }
        }
    }
}

/// What a document means, read off its outermost constructor: an array
/// means the sequence of its items' meanings, an object the map it holds.
pub proof fn lemma_view_of(j: Json)
    ensures
        match j {
            Json::Null => j@ == JsonV::Null,
            Json::Bool(b) => j@ == JsonV::Bool(b),
            Json::Number(n) => j@ == JsonV::Number(n@),
            Json::Str(t) => j@ == JsonV::Str(t@),
            Json::Array(v) => j@ is Array && j@->Array_0.len() == v@.len() && forall|i: int|
                0 <= i < v@.len() ==> #[trigger] j@->Array_0[i] == v@[i]@,
            Json::Object(o) => j@ == JsonV::Object(o@),
        },
{
    if let Json::Array(v) = j {
        lemma_array_view(v@);
    }
}

/// A parsed document as a parser hands it over: objects as their entries,
/// in the order the parser gives them.
pub enum RawValue {
    Null,
    Bool(bool),
    Number(String),
    Str(String),
    Array(Vec<RawValue>),
    Object(Vec<(String, RawValue)>),
}

/// The contents of a `RawValue`.
pub enum RawV {
    Null,
    Bool(bool),
    Number(Seq<char>),
    Str(Seq<char>),
    Array(Seq<RawV>),
    Object(Seq<(Seq<char>, RawV)>),
}

pub open spec fn raw_view(r: RawValue) -> RawV
    decreases r,
{
    match r {
        RawValue::Null => RawV::Null,
        RawValue::Bool(b) => RawV::Bool(b),
        RawValue::Number(n) => RawV::Number(n@),
        RawValue::Str(t) => RawV::Str(t@),
        RawValue::Array(v) => RawV::Array(raw_items_view(v@)),
        RawValue::Object(e) => RawV::Object(raw_entries_view(e@)),
    }
}

pub open spec fn raw_items_view(s: Seq<RawValue>) -> Seq<RawV>
    decreases s,
{
    if s.len() == 0 {
        Seq::empty()
    } else {
        raw_items_view(s.subrange(0, s.len() - 1)).push(raw_view(s[s.len() - 1]))
    }
}

pub open spec fn raw_entries_view(s: Seq<(String, RawValue)>) -> Seq<(Seq<char>, RawV)>
    decreases s,
{
    if s.len() == 0 {
        Seq::empty()
    } else {
        raw_entries_view(s.subrange(0, s.len() - 1)).push(
            (s[s.len() - 1].0@, raw_view(s[s.len() - 1].1)),
        )
    }
}

impl View for RawValue {
    type V = RawV;

    open spec fn view(&self) -> RawV {
        raw_view(*self)
    }
}

/// What a parsed document means: an object holds each of its keys with the
/// value of the key's last entry.
pub open spec fn raw_meaning(r: RawV) -> JsonV
    decreases r,
{
    match r {
        RawV::Null => JsonV::Null,
        RawV::Bool(b) => JsonV::Bool(b),
        RawV::Number(n) => JsonV::Number(n),
        RawV::Str(t) => JsonV::Str(t),
        RawV::Array(a) => JsonV::Array(items_meaning(a)),
        RawV::Object(e) => JsonV::Object(entries_meaning(e)),
    }
}

pub open spec fn items_meaning(s: Seq<RawV>) -> Seq<JsonV>
    decreases s,
{
    if s.len() == 0 {
        Seq::empty()
    } else {
        items_meaning(s.subrange(0, s.len() - 1)).push(raw_meaning(s[s.len() - 1]))
    }
}

pub open spec fn entries_meaning(s: Seq<(Seq<char>, RawV)>) -> Map<Seq<char>, JsonV>
    decreases s,
{
    if s.len() == 0 {
        Map::empty()
    } else {
        entries_meaning(s.subrange(0, s.len() - 1)).insert(
            s[s.len() - 1].0,
            raw_meaning(s[s.len() - 1].1),
        )
    }
}

proof fn lemma_raw_items(s: Seq<RawValue>)
    ensures
        raw_items_view(s).len() == s.len(),
        forall|i: int| 0 <= i < s.len() ==> #[trigger] raw_items_view(s)[i] == raw_view(s[i]),
    decreases s.len(),
{
    if s.len() > 0 {
        lemma_raw_items(s.subrange(0, s.len() - 1));
        assert forall|i: int| 0 <= i < s.len() implies #[trigger] raw_items_view(s)[i] == raw_view(s[i]) by {
            if i < s.len() - 1 {
                assert(s.subrange(0, s.len() - 1)[i] == s[i]);
            }
        }
    }
}

proof fn lemma_raw_entries(s: Seq<(String, RawValue)>)
    ensures
        raw_entries_view(s).len() == s.len(),
        forall|i: int|
            0 <= i < s.len() ==> #[trigger] raw_entries_view(s)[i] == (s[i].0@, raw_view(s[i].1)),
    decreases s.len(),
{
    if s.len() > 0 {
        lemma_raw_entries(s.subrange(0, s.len() - 1));
        assert forall|i: int| 0 <= i < s.len() implies #[trigger] raw_entries_view(s)[i] == (
            s[i].0@,
            raw_view(s[i].1),
        ) by {
            if i < s.len() - 1 {
                assert(s.subrange(0, s.len() - 1)[i] == s[i]);
            }
        }
    }
}

/// The document a parsed value means, its objects built entry by entry.
pub fn from_raw(r: &RawValue) -> (j: Json)
    ensures
        j@ == raw_meaning(r@),
    decreases r@,
{
    match r {
        RawValue::Null => Json::Null,
        RawValue::Bool(b) => Json::Bool(*b),
        RawValue::Number(n) => Json::Number(n.clone()),
        RawValue::Str(t) => Json::Str(t.clone()),
        RawValue::Array(v) => {
            proof {
                lemma_raw_items(v@);
            }
            let ghost rv = raw_items_view(v@);
            let mut out: Vec<Json> = Vec::new();
            let mut i: usize = 0;
            while i < v.len()
                invariant
                    i <= v@.len(),
                    rv == raw_items_view(v@),
                    r@ == RawV::Array(rv),
                    rv.len() == v@.len(),
                    forall|k: int| 0 <= k < v@.len() ==> #[trigger] rv[k] == raw_view(v@[k]),
                    out@.len() == i,
                    forall|k: int| 0 <= k < i ==> #[trigger] out@[k]@ == raw_meaning(rv[k]),
                decreases v@.len() - i,
            {
                assert(decreases_to!(r@ => r@->Array_0));
                assert(decreases_to!(rv => rv[i as int]));
                let x = from_raw(&v[i]);
                out.push(x);
                i = i + 1;
            }
            proof {
                lemma_array_view(out@);
                lemma_items_meaning(rv);
                assert forall|k: int| 0 <= k < out@.len() implies #[trigger] array_view(out@)[k]
                    == items_meaning(rv)[k] by {
                    assert(array_view(out@)[k] == json_view(out@[k]));
                    assert(out@[k]@ == raw_meaning(rv[k]));
                }
                assert(array_view(out@) =~= items_meaning(rv));
            }
            Json::Array(out)
        },
        RawValue::Object(e) => {
            proof {
                lemma_raw_entries(e@);
            }
            let ghost re = raw_entries_view(e@);
            let mut o = JsonObject::new();
            let mut i: usize = 0;
            assert(re.subrange(0, 0) =~= Seq::<(Seq<char>, RawV)>::empty());
            while i < e.len()
                invariant
                    i <= e@.len(),
                    re == raw_entries_view(e@),
                    r@ == RawV::Object(re),
                    re.len() == e@.len(),
                    forall|k: int| 0 <= k < e@.len() ==> #[trigger] re[k] == (e@[k].0@, raw_view(e@[k].1)),
                    o@ == entries_meaning(re.subrange(0, i as int)),
                decreases e@.len() - i,
            {
                assert(decreases_to!(r@ => r@->Object_0));
                assert(decreases_to!(re => re[i as int]));
                assert(decreases_to!(re[i as int] => re[i as int].1));
                let x = from_raw(&e[i].1);
                o.insert(e[i].0.clone(), x);
                assert(re.subrange(0, i + 1).subrange(0, i as int) =~= re.subrange(0, i as int));
                i = i + 1;
            }
            assert(re.subrange(0, i as int) =~= re);
            Json::Object(o)
        },
    }
}

proof fn lemma_items_meaning(s: Seq<RawV>)
    ensures
        items_meaning(s).len() == s.len(),
        forall|i: int| 0 <= i < s.len() ==> #[trigger] items_meaning(s)[i] == raw_meaning(s[i]),
    decreases s.len(),
{
    if s.len() > 0 {
        lemma_items_meaning(s.subrange(0, s.len() - 1));
        assert forall|i: int| 0 <= i < s.len() implies #[trigger] items_meaning(s)[i] == raw_meaning(s[i]) by {
            if i < s.len() - 1 {
                assert(s.subrange(0, s.len() - 1)[i] == s[i]);
            }
        }
    }
}

/// The views of a list of documents.
pub open spec fn views(s: Seq<Json>) -> Seq<JsonV> {
    s.map_values(|j: Json| j@)
}

/// The configuration seen from a directory, given the config files found
/// walking up from it: `layers[0]` is the file closest to the directory, and
/// each closer file is layered over everything above it.
pub open spec fn layered(layers: Seq<JsonV>) -> JsonV
    decreases layers.len(),
{
    if layers.len() == 0 {
        JsonV::Null
    } else {
        merge(layered(layers.drop_first()), layers[0])
    }
}

/// Merges the config files found walking up from a project directory
/// (`layers[0]` closest to it) into one document; with no files, `Null`.
pub fn merge_layers(layers: Vec<Json>) -> (r: Json)
    ensures
        r@ == layered(views(layers@)),
{
    let ghost s = views(layers@);
    let mut rest = layers;
    let mut merged = Json::Null;
    assert(s.subrange(s.len() as int, s.len() as int) =~= Seq::<JsonV>::empty());
    while rest.len() > 0
        invariant
            rest@.len() <= s.len(),
            views(rest@) == s.subrange(0, rest@.len() as int),
            merged@ == layered(s.subrange(rest@.len() as int, s.len() as int)),
        decreases rest.len(),
    {
        let ghost m: int = rest@.len() as int;
        let ghost before = rest@;
        let top = rest.pop().unwrap();
        assert(top@ == s[m - 1]) by {
            assert(before[m - 1] == top);
            assert(views(before)[m - 1] == s.subrange(0, m)[m - 1]);
        }
        assert(s.subrange(m - 1, s.len() as int).drop_first() =~= s.subrange(m, s.len() as int));
        assert(views(rest@) =~= s.subrange(0, m - 1));
        merged = deep_merge(merged, top);
    }
    assert(s.subrange(0, s.len() as int) =~= s);
    merged
}

/// Merging onto an empty base gives the overlay unchanged.
pub proof fn law_merge_onto_null(overlay: JsonV)
    ensures
        merge(JsonV::Null, overlay) == overlay,
{
}

/// Merging onto an empty object gives the overlay unchanged.
pub proof fn law_merge_onto_empty_object(overlay: JsonV)
    ensures
        merge(JsonV::Object(Map::empty()), overlay) == overlay,
{
    if let JsonV::Object(m) = overlay {
        assert(merge_maps(Map::empty(), m) =~= m);
    }
}

/// An overlay that is not an object (a scalar, an array, or null) replaces
/// the base outright: scalars override and arrays are never concatenated.
pub proof fn law_non_object_overlay_replaces(base: JsonV, overlay: JsonV)
    requires
        !(overlay is Object),
    ensures
        merge(base, overlay) == overlay,
{
}

/// Two objects merge key by key: a key in only one of them keeps that
/// value, a key in both holds the merge of the two values.
pub proof fn law_objects_merge_by_key(a: Map<Seq<char>, JsonV>, b: Map<Seq<char>, JsonV>, k: Seq<char>)
    ensures
        merge(JsonV::Object(a), JsonV::Object(b)) is Object,
        merge_maps(a, b).dom().contains(k) <==> (a.dom().contains(k) || b.dom().contains(k)),
        a.dom().contains(k) && !b.dom().contains(k) ==> merge_maps(a, b)[k] == a[k],
        b.dom().contains(k) && !a.dom().contains(k) ==> merge_maps(a, b)[k] == b[k],
        a.dom().contains(k) && b.dom().contains(k) ==> merge_maps(a, b)[k] == merge(a[k], b[k]),
{
}

/// Layering a document over itself changes nothing.
pub proof fn law_merge_idempotent(v: JsonV)
    ensures
        merge(v, v) == v,
    decreases v,
{
    if let JsonV::Object(m) = v {
        assert forall|k: Seq<char>| #[trigger] m.dom().contains(k) implies merge(m[k], m[k]) == m[k] by {
            law_merge_idempotent(m[k]);
        }
        assert(merge_maps(m, m) =~= m);
    }
}

/// In the merged configuration, a key that the closest file sets to a
/// non-object value holds exactly that value, whatever the files above say.
pub proof fn law_closest_file_wins(layers: Seq<JsonV>, k: Seq<char>)
    requires
        layers.len() > 0,
        layers[0] matches JsonV::Object(m) && m.dom().contains(k) && !(m[k] is Object),
    ensures
        layered(layers) matches JsonV::Object(r) && r.dom().contains(k) && r[k] == (
        match layers[0] {
            JsonV::Object(m) => m[k],
            _ => JsonV::Null,
        }),
{
    if let JsonV::Object(m) = layers[0] {
        if let JsonV::Object(up) = layered(layers.drop_first()) {
            if up.dom().contains(k) {
                law_non_object_overlay_replaces(up[k], m[k]);
            }
        }
    }
}

/// A key that the closest file does not mention keeps the value that the
/// files above it give, when those merge to an object.
pub proof fn law_unmentioned_key_inherited(layers: Seq<JsonV>, k: Seq<char>)
    requires
        layers.len() > 0,
        layers[0] matches JsonV::Object(m) && !m.dom().contains(k),
        layered(layers.drop_first()) matches JsonV::Object(up) && up.dom().contains(k),
    ensures
        layered(layers) matches JsonV::Object(r) && r.dom().contains(k) && r[k] == (
        match layered(layers.drop_first()) {
            JsonV::Object(up) => up[k],
            _ => JsonV::Null,
        }),
{
}

/// The value under key `g`, then key `f`, of a document, if it has one.
pub open spec fn value_at(j: JsonV, g: Seq<char>, f: Seq<char>) -> Option<JsonV> {
    match j {
        JsonV::Object(m) => if m.dom().contains(g) {
            match m[g] {
                JsonV::Object(gm) => if gm.dom().contains(f) {
                    Some(gm[f])
                } else {
                    None
                },
                _ => None,
            }
        } else {
            None
        },
        _ => None,
    }
}

/// A value two levels down (key `g`, then key `f`) that the closest file
/// sets to a non-object is the merged configuration's value there, whatever
/// the files above say: lower directories override higher ones.
pub proof fn law_closest_nested_value_wins(layers: Seq<JsonV>, g: Seq<char>, f: Seq<char>)
    requires
        layers.len() > 0,
        value_at(layers[0], g, f) is Some,
        !(value_at(layers[0], g, f)->0 is Object),
    ensures
        value_at(layered(layers), g, f) == value_at(layers[0], g, f),
{
    if let JsonV::Object(m) = layers[0] {
        if let JsonV::Object(gm) = m[g] {
            let up = layered(layers.drop_first());
            assert(layered(layers) == merge(up, layers[0]));
            if let JsonV::Object(u) = up {
                law_objects_merge_by_key(u, m, g);
                if u.dom().contains(g) {
                    if let JsonV::Object(ug) = u[g] {
                        law_objects_merge_by_key(ug, gm, f);
                        if ug.dom().contains(f) {
                            law_non_object_overlay_replaces(ug[f], gm[f]);
                        }
                        assert(merge(u[g], m[g]) == JsonV::Object(merge_maps(ug, gm)));
                    } else {
                        assert(merge(u[g], m[g]) == m[g]);
                    }
                }
                assert(merge(up, layers[0]) == JsonV::Object(merge_maps(u, m)));
            }
        }
    }
}

} // verus!
