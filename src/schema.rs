//! Columns: their names and types.
use vstd::prelude::*;

verus! {

/// The type of the values of a column.
#[derive(Debug, Clone, Copy, PartialEq, Eq, Structural)]
pub enum DataType {
    Null,
    Boolean,
    Int32,
    Int64,
    UInt32,
    Utf8,
    Binary,
    /// Days since the epoch, kept as 32-bit integers.
    Date,
    /// Microseconds since the epoch, kept as 64-bit integers.
    Timestamp,
}

/// The type that stores the values of `t`.
pub open spec fn physical_of(t: DataType) -> DataType {
    match t {
        DataType::Date => DataType::Int32,
        DataType::Timestamp => DataType::Int64,
        _ => t,
    }
}

impl DataType {
    /// The type that stores the values of this one.
    pub fn to_physical(&self) -> (r: DataType)
        ensures
            r == physical_of(*self),
    {
        match self {
            DataType::Date => DataType::Int32,
            DataType::Timestamp => DataType::Int64,
            _ => *self,
        }
    }
}

/// A named, typed column.
#[derive(Debug, PartialEq, Eq)]
pub struct Field {
    pub name: String,
    pub dtype: DataType,
}

impl Field {
    /// A column named `name` of type `dtype`.
    pub fn new(name: String, dtype: DataType) -> (r: Field)
        ensures
            r.name@ == name@,
            r.dtype == dtype,
    {
        Field { name, dtype }
    }

    /// The same column with its physical type.
    pub fn to_physical(&self) -> (r: Field)
        ensures
            r.name@ == self.name@,
            r.dtype == physical_of(self.dtype),
    {
        Field { name: self.name.clone(), dtype: self.dtype.to_physical() }
    }

    /// The same column under the name `name`.
    pub fn rename(&self, name: String) -> (r: Field)
        ensures
            r.name@ == name@,
            r.dtype == self.dtype,
    {
        Field { name, dtype: self.dtype }
    }

    /// A copy of this column.
    pub fn duplicate(&self) -> (r: Field)
        ensures
            r == *self,
    {
        Field { name: self.name.clone(), dtype: self.dtype }
    }
}

/// The columns of `fs` whose name is in `names`, in order.
pub open spec fn kept_fields(fs: Seq<Field>, names: Seq<Seq<char>>) -> Seq<Field>
    decreases fs.len(),
{
    if fs.len() == 0 {
        fs
    } else if names.contains(fs.last().name@) {
        kept_fields(fs.drop_last(), names).push(fs.last())
    } else {
        kept_fields(fs.drop_last(), names)
    }
}

/// The names of a list of columns.
pub open spec fn field_names(s: Seq<Field>) -> Seq<Seq<char>> {
    s.map_values(|f: Field| f.name@)
}

/// `s` with each `from` replaced by `to`.
pub open spec fn replace_char(s: Seq<char>, from: char, to: Seq<char>) -> Seq<char>
    decreases s.len(),
{
    if s.len() == 0 {
        s
    } else {
        replace_char(s.drop_last(), from, to) + if s.last() == from {
            to
        } else {
            seq![s.last()]
        }
    }
}

/// Relies on `str::replace` with a `char` pattern: every occurrence of
/// `from` is replaced by `to`, the rest kept in order.
#[verifier::external_body]
fn replace_in(s: &str, from: char, to: &str) -> (r: String)
    ensures
        r@ == replace_char(s@, from, to@),
{
    s.replace(from, to)
}

/// The text of a column name made safe for use inside semantic ids: the
/// delimiters `.`, `,`, `(`, `)` are escaped as hex codes, and then every
/// backslash, those just written included, is escaped in turn.
pub open spec fn sanitized(name: Seq<char>) -> Seq<char> {
    replace_char(
        replace_char(
            replace_char(
                replace_char(replace_char(name, '.', seq!['\\', 'x', '2', 'e']), ',', seq!['\\', 'x', '2', 'c']),
                '(',
                seq!['\\', 'x', '2', '8'],
            ),
            ')',
            seq!['\\', 'x', '2', '9'],
        ),
        '\\',
        seq!['\\', 'x', '5', 'c'],
    )
}

/// A column id for semantic plan comparison.
#[derive(Debug, PartialEq, Eq)]
pub struct FieldID {
    pub id: String,
}

impl FieldID {
    /// The id `id`, as it is.
    pub fn new(id: String) -> (r: FieldID)
        ensures
            r.id@ == id@,
    {
        FieldID { id }
    }

    /// The id of the column named `name`, with its delimiters escaped.
    pub fn from_name(name: String) -> (r: FieldID)
        ensures
            r.id@ == sanitized(name@),
    {
        let a = replace_in(name.as_str(), '.', "\\x2e");
        let b = replace_in(a.as_str(), ',', "\\x2c");
        let c = replace_in(b.as_str(), '(', "\\x28");
        let d = replace_in(c.as_str(), ')', "\\x29");
        let e = replace_in(d.as_str(), '\\', "\\x5c");
        proof {
            reveal_strlit("\\x2e");
            reveal_strlit("\\x2c");
            reveal_strlit("\\x28");
            reveal_strlit("\\x29");
            reveal_strlit("\\x5c");
            assert("\\x2e"@ =~= seq!['\\', 'x', '2', 'e']);
            assert("\\x2c"@ =~= seq!['\\', 'x', '2', 'c']);
            assert("\\x28"@ =~= seq!['\\', 'x', '2', '8']);
            assert("\\x29"@ =~= seq!['\\', 'x', '2', '9']);
            assert("\\x5c"@ =~= seq!['\\', 'x', '5', 'c']);
        }
        FieldID::new(e)
    }
}

} // verus!
