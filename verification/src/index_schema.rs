//! The fields that an index has, by name.

use vstd::prelude::*;
use vstd::string::StringSliceAdditionalSpecFns;

verus! {

/// The type of the values of a field.
#[derive(Clone, Copy, Debug, PartialEq, Eq, Structural, PartialOrd, Ord, Hash)]
pub enum Type {
    Str,
    U64,
    I64,
    F64,
    Bool,
    Date,
    Facet,
    Bytes,
    Json,
    IpAddr,
}

impl Type {
    /// The place of the type among the types.
    pub open spec fn rank(&self) -> u8 {
        match *self {
            Type::Str => 0,
            Type::U64 => 1,
            Type::I64 => 2,
            Type::F64 => 3,
            Type::Bool => 4,
            Type::Date => 5,
            Type::Facet => 6,
            Type::Bytes => 7,
            Type::Json => 8,
            Type::IpAddr => 9,
        }
    }

    /// The place of the type among the types.
    pub fn rank_of(&self) -> (r: u8)
        ensures
            r == self.rank(),
    {
        match *self {
            Type::Str => 0,
            Type::U64 => 1,
            Type::I64 => 2,
            Type::F64 => 3,
            Type::Bool => 4,
            Type::Date => 5,
            Type::Facet => 6,
            Type::Bytes => 7,
            Type::Json => 8,
            Type::IpAddr => 9,
        }
    }
}

/// The bytes of a text.
pub open spec fn bytes_of(text: Seq<char>) -> Seq<u8> {
    vstd::utf8::encode_utf8(text)
}

/// One field of an index.
#[derive(Clone, Debug, PartialEq, Eq)]
pub struct FieldEntry {
    pub name: String,
    pub typ: Type,
    pub indexed: bool,
    pub stored: bool,
    pub columnar: bool,
    /// Whether a dot in a key of a JSON value is taken for a step of a path.
    pub expand_dots: bool,
}

impl FieldEntry {
    /// A field.
    pub fn new(name: &str, typ: Type, indexed: bool, stored: bool, columnar: bool) -> (r: FieldEntry)
        ensures
            r.name@ == name@,
            r.typ == typ,
            r.indexed == indexed,
            r.stored == stored,
            r.columnar == columnar,
            !r.expand_dots,
    {
        FieldEntry { name: name.to_owned(), typ, indexed, stored, columnar, expand_dots: false }
    }

    /// The field, with dots in the keys of JSON values taken for steps of a
    /// path or not.
    pub fn set_expand_dots(self, expand_dots: bool) -> (r: FieldEntry)
        ensures
            r.name@ == self.name@,
            r.typ == self.typ,
            r.indexed == self.indexed,
            r.stored == self.stored,
            r.columnar == self.columnar,
            r.expand_dots == expand_dots,
    {
        FieldEntry {
            name: self.name,
            typ: self.typ,
            indexed: self.indexed,
            stored: self.stored,
            columnar: self.columnar,
            expand_dots,
        }
    }

    /// Whether the field can be searched.
    pub fn is_indexed(&self) -> (r: bool)
        ensures
            r == self.indexed,
    {
        self.indexed
    }

    /// Whether a dot in a key of a JSON value is taken for a step of a path.
    pub fn is_expand_dots_enabled(&self) -> (r: bool)
        ensures
            r == self.expand_dots,
    {
        self.expand_dots
    }

    /// Whether the values of the field are kept in the document store.
    pub fn is_stored(&self) -> (r: bool)
        ensures
            r == self.stored,
    {
        self.stored
    }
}

/// The fields of an index.
#[derive(Clone, Debug, PartialEq, Eq)]
pub struct Schema {
    pub fields: Vec<FieldEntry>,
}

/// Builds a schema field by field.
#[derive(Debug)]
pub struct SchemaBuilder {
    pub fields: Vec<FieldEntry>,
}

impl SchemaBuilder {
    /// A builder without fields.
    pub fn new() -> (r: SchemaBuilder)
        ensures
            r.fields@.len() == 0,
    {
        SchemaBuilder { fields: Vec::new() }
    }

    /// Adds a field, and gives its number.
    pub fn add_field(&mut self, entry: FieldEntry) -> (r: usize)
        ensures
            final(self).fields@ == old(self).fields@.push(entry),
            r == old(self).fields@.len(),
    {
        self.fields.push(entry);
        self.fields.len() - 1
    }

    /// The schema of the fields added.
    pub fn build(self) -> (r: Schema)
        ensures
            r.fields@ == self.fields@,
    {
        Schema { fields: self.fields }
    }
}

/// The number of the first field of that name, if there is one.
pub open spec fn field_named(fields: Seq<FieldEntry>, name: Seq<u8>) -> Option<int>
    decreases fields.len(),
{
    if fields.len() == 0 {
        None
    } else {
        match field_named(fields.drop_last(), name) {
            Some(i) => Some(i),
            None => if bytes_of(fields.last().name@) == name {
                Some(fields.len() - 1)
            } else {
                None
            },
        }
    }
}

/// Whether a path can be split at index `i`: a dot stands there, and no
/// backslash before it.
pub open spec fn splits_at(path: Seq<u8>, i: int) -> bool {
    0 <= i < path.len() && path[i] == 0x2e && !(i > 0 && path[i - 1] == 0x5c)
}

/// The field that a beginning of `path` names, with the index at which the
/// rest of the path starts: of the beginnings shorter than `k` that end
/// before a dot, the longest that is the name of a field.
pub open spec fn field_of_prefix(fields: Seq<FieldEntry>, path: Seq<u8>, k: int) -> Option<
    (int, int),
>
    decreases k,
{
    if k <= 0 {
        None
    } else if splits_at(path, k - 1) && field_named(fields, path.take(k - 1)) is Some {
        Some((field_named(fields, path.take(k - 1))->0, k))
    } else {
        field_of_prefix(fields, path, k - 1)
    }
}

/// The field that a path names, with the index at which the rest of the
/// path starts: the field whose name is the whole path, or else the field
/// whose name is the longest beginning of the path that ends before a dot.
pub open spec fn field_of_path(fields: Seq<FieldEntry>, path: Seq<u8>) -> Option<(int, int)> {
    match field_named(fields, path) {
        Some(i) => Some((i, path.len() as int)),
        None => field_of_prefix(fields, path, path.len() as int),
    }
}

proof fn lemma_field_named(fields: Seq<FieldEntry>, name: Seq<u8>, k: int)
    requires
        0 <= k <= fields.len(),
        forall|j: int| 0 <= j < k ==> bytes_of((#[trigger] fields[j]).name@) != name,
        k < fields.len() ==> bytes_of(fields[k].name@) == name,
    ensures
        field_named(fields, name) == if k < fields.len() {
            Some(k)
        } else {
            None::<int>
        },
    decreases fields.len(),
{
    if fields.len() > 0 {
        let t = fields.drop_last();
        if k < t.len() {
            lemma_field_named(t, name, k);
        } else {
            lemma_field_named(t, name, t.len() as int);
        }
    }
}

/// Whether the first `k` bytes of `path` are the bytes `name`.
fn prefix_is(path: &[u8], k: usize, name: &[u8]) -> (r: bool)
    requires
        k <= path.len(),
    ensures
        r == (path@.take(k as int) == name@),
{
    if name.len() != k {
        return false;
    }
    let mut i: usize = 0;
    while i < k
        invariant
            i <= k <= path.len(),
            name.len() == k,
            forall|j: int| 0 <= j < i ==> path@[j] == name@[j],
        decreases k - i,
    {
        if path[i] != name[i] {
            proof {
                assert(path@.take(k as int)[i as int] != name@[i as int]);
            }
            return false;
        }
        i += 1;
    }
    proof {
        assert(path@.take(k as int) =~= name@);
    }
    true
}

impl Schema {
    /// The number of the field that is named by the first `k` bytes of
    /// `path`.
    fn field_with_prefix(&self, path: &[u8], k: usize) -> (r: Option<usize>)
        requires
            k <= path.len(),
        ensures
            match r {
                Some(i) => field_named(self.fields@, path@.take(k as int)) == Some(i as int) && i
                    < self.fields@.len(),
                None => field_named(self.fields@, path@.take(k as int)) is None,
            },
    {
        let mut i: usize = 0;
        while i < self.fields.len()
            invariant
                i <= self.fields.len(),
                k <= path.len(),
                forall|j: int|
                    0 <= j < i ==> bytes_of((#[trigger] self.fields@[j]).name@) != path@.take(
                        k as int,
                    ),
            decreases self.fields.len() - i,
        {
            if prefix_is(path, k, self.fields[i].name.as_str().as_bytes()) {
                proof {
                    lemma_field_named(self.fields@, path@.take(k as int), i as int);
                }
                return Some(i);
            }
            i += 1;
        }
        proof {
            lemma_field_named(self.fields@, path@.take(k as int), i as int);
        }
        None
    }

    /// The number of the field of that name.
    pub fn get_field(&self, field_name: &str) -> (r: Option<usize>)
        ensures
            match r {
                Some(i) => field_named(self.fields@, bytes_of(field_name@)) == Some(i as int) && i
                    < self.fields@.len(),
                None => field_named(self.fields@, bytes_of(field_name@)) is None,
            },
    {
        let path = field_name.as_bytes();
        proof {
            assert(path@.take(path@.len() as int) =~= path@);
        }
        self.field_with_prefix(path, path.len())
    }

    /// The field that a path names, and the index in the path at which what
    /// follows the field's name starts.
    pub fn find_field(&self, full_path: &str) -> (r: Option<(usize, usize)>)
        ensures
            match r {
                Some(place) => field_of_path(self.fields@, bytes_of(full_path@)) == Some(
                    (place.0 as int, place.1 as int),
                ) && place.0 < self.fields@.len(),
                None => field_of_path(self.fields@, bytes_of(full_path@)) is None,
            },
    {
        let path = full_path.as_bytes();
        proof {
            assert(path@.take(path@.len() as int) =~= path@);
        }
        match self.field_with_prefix(path, path.len()) {
            Some(field) => {
                return Some((field, path.len()));
            },
            None => {},
        }
        let mut k: usize = path.len();
        while k > 0
            invariant
                k <= path.len(),
                path@ == bytes_of(full_path@),
                field_named(self.fields@, path@) is None,
                field_of_prefix(self.fields@, path@, path@.len() as int) == field_of_prefix(
                    self.fields@,
                    path@,
                    k as int,
                ),
            decreases k,
        {
            let at = k - 1;
            if path[at] == 0x2e && !(at > 0 && path[at - 1] == 0x5c) {
                match self.field_with_prefix(path, at) {
                    Some(field) => {
                        return Some((field, k));
                    },
                    None => {},
                }
            }
            k = at;
        }
        None
    }

    /// The field of number `field`.
    pub fn get_field_entry(&self, field: usize) -> (r: &FieldEntry)
        requires
            field < self.fields@.len(),
        ensures
            *r == self.fields@[field as int],
    {
        &self.fields[field]
    }

    /// The name of the field of number `field`.
    pub fn get_field_name(&self, field: usize) -> (r: &str)
        requires
            field < self.fields@.len(),
        ensures
            r@ == self.fields@[field as int].name@,
    {
        self.fields[field].name.as_str()
    }
}

} // verus!
