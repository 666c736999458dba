//! Raw value spans and the name-keyed property list the lexer produces.

use vstd::prelude::*;

verus! {

/// A raw value span: the text of a property value (or of a sub-span sliced
/// out of one) together with the source position of its first character and
/// its length in characters.
#[derive(Debug, Default, Clone)]
pub struct UnparsedPropertyValue {
    pub raw: String,
    pub line: usize,
    pub column: usize,
    pub len: usize,
}

/// The mathematical view of a span: its text and position.
pub ghost struct SpanG {
    pub text: Seq<char>,
    pub line: usize,
    pub column: usize,
    pub len: usize,
}

impl View for UnparsedPropertyValue {
    type V = SpanG;

    open spec fn view(&self) -> SpanG {
        SpanG { text: self.raw@, line: self.line, column: self.column, len: self.len }
    }
}

/// One lexed property: its lower-cased name and its raw value span.
#[derive(Debug)]
pub struct PropEntry {
    pub name: String,
    pub value: UnparsedPropertyValue,
}

impl View for PropEntry {
    type V = (Seq<char>, SpanG);

    open spec fn view(&self) -> (Seq<char>, SpanG) {
        (self.name@, self.value@)
    }
}

/// The views of the entries of a property list.
pub open spec fn props_view(m: Seq<PropEntry>) -> Seq<(Seq<char>, SpanG)> {
    m.map(|i: int, e: PropEntry| e@)
}

/// The position of the entry with the given name, if any.
pub open spec fn key_index(props: Seq<(Seq<char>, SpanG)>, k: Seq<char>) -> Option<int>
    decreases props.len(),
{
    if props.len() == 0 {
        None
    } else if props[0].0 == k {
        Some(0)
    } else {
        match key_index(props.drop_first(), k) {
            Some(i) => Some(i + 1),
            None => None,
        }
    }
}

pub open spec fn props_has(props: Seq<(Seq<char>, SpanG)>, k: Seq<char>) -> bool {
    key_index(props, k) is Some
}

/// Insertion with last-write-wins semantics: an existing entry keeps its
/// position but receives the new span, a new name is appended.
pub open spec fn props_insert(
    props: Seq<(Seq<char>, SpanG)>,
    k: Seq<char>,
    v: SpanG,
) -> Seq<(Seq<char>, SpanG)> {
    match key_index(props, k) {
        Some(i) => props.update(i, (k, v)),
        None => props.push((k, v)),
    }
}

pub proof fn lemma_key_index_at(props: Seq<(Seq<char>, SpanG)>, k: Seq<char>, i: int)
    requires
        0 <= i < props.len(),
        props[i].0 == k,
        forall|j: int| 0 <= j < i ==> props[j].0 != k,
    ensures
        key_index(props, k) == Some(i),
    decreases i,
{
    if i == 0 {
    } else {
        assert(props[0].0 != k);
        let t = props.drop_first();
        assert(t[i - 1].0 == k);
        assert(forall|j: int| 0 <= j < i - 1 ==> t[j].0 != k);
        lemma_key_index_at(t, k, i - 1);
    }
}

pub proof fn lemma_key_index_none(props: Seq<(Seq<char>, SpanG)>, k: Seq<char>)
    requires
        forall|j: int| 0 <= j < props.len() ==> props[j].0 != k,
    ensures
        key_index(props, k) is None,
    decreases props.len(),
{
    if props.len() > 0 {
        lemma_key_index_none(props.drop_first(), k);
    }
}

/// The index found by `key_index` indeed carries the name.
pub proof fn lemma_key_index_props(props: Seq<(Seq<char>, SpanG)>, k: Seq<char>)
    ensures
        match key_index(props, k) {
            Some(i) => 0 <= i < props.len() && props[i].0 == k,
            None => forall|j: int| 0 <= j < props.len() ==> props[j].0 != k,
        },
    decreases props.len(),
{
    if props.len() > 0 && !(props[0].0 == k) {
        lemma_key_index_props(props.drop_first(), k);
        let t = props.drop_first();
        assert(forall|j: int| 0 <= j < t.len() ==> t[j] == props[j + 1]);
        match key_index(t, k) {
            Some(i) => {
                assert(props[i + 1] == t[i]);
            },
            None => {
                assert forall|j: int| 0 <= j < props.len() implies props[j].0 != k by {
                    if j > 0 {
                        assert(t[j - 1] == props[j]);
                    }
                }
            },
        }
    }
}

/// Finds the entry with the given name in a property list.
pub fn find_prop(map: &Vec<PropEntry>, name: &String) -> (r: Option<usize>)
    ensures
        match r {
            Some(ix) => ix < map@.len() && key_index(props_view(map@), name@) == Some(ix as int),
            None => key_index(props_view(map@), name@) is None,
        },
{
    let n = map.len();
    let mut j: usize = 0;
    while j < n
        invariant
            0 <= j <= n,
            n == map@.len(),
            forall|l: int| 0 <= l < j ==> props_view(map@)[l].0 != name@,
        decreases n - j,
    {
        if string_eq_ref(&map[j].name, name) {
            proof {
                lemma_key_index_at(props_view(map@), name@, j as int);
            }
            return Some(j);
        }
        j = j + 1;
    }
    proof {
        lemma_key_index_none(props_view(map@), name@);
    }
    None
}

/// Whether two strings hold the same characters.
fn string_eq_ref(a: &String, b: &String) -> (r: bool)
    ensures
        r == (a@ == b@),
{
    *a == *b
}

/// Inserts a property, overwriting the span of an existing name in place.
pub fn insert_prop(map: &mut Vec<PropEntry>, name: &String, value: UnparsedPropertyValue)
    ensures
        props_view(final (map)@) == props_insert(props_view(old(map)@), name@, value@),
{
    let entry = PropEntry { name: name.clone(), value };
    assert(entry@ == (name@, value@));
    proof {
        lemma_key_index_props(props_view(map@), name@);
    }
    match find_prop(map, name) {
        Some(ix) => {
            let ghost before = props_view(map@);
            map[ix] = entry;
            proof {
                assert(props_view(map@) =~= before.update(ix as int, (name@, value@)));
            }
        },
        None => {
            let ghost before = props_view(map@);
            map.push(entry);
            proof {
                assert(props_view(map@) =~= before.push((name@, value@)));
            }
        },
    }
    proof {
        assert(props_view(map@) =~= props_insert(props_view(old(map)@), name@, value@));
    }
}

} // verus!
