//! In-memory column cursors: the typed values and structural levels a
//! physical column supplies, and the registry that hands them out keyed by
//! fully qualified column path.

use vstd::prelude::*;
use crate::schema::LeafType;

verus! {

/// One stored value of a leaf column.
pub enum ScalarValue {
    Bool(bool),
    Int32(i32),
    Int64(i64),
    Utf8(String),
}

/// Whether a stored value has the given storage type.
pub open spec fn scalar_has_type(v: ScalarValue, t: LeafType) -> bool {
    match v {
        ScalarValue::Bool(_) => t is Bool,
        ScalarValue::Int32(_) => t is Int32,
        ScalarValue::Int64(_) => t is Int64,
        ScalarValue::Utf8(_) => t is Utf8,
    }
}

impl ScalarValue {
    /// An equal copy of the stored value.
    pub fn duplicate(&self) -> (r: ScalarValue)
        ensures
            r == *self,
    {
        match self {
            ScalarValue::Bool(b) => ScalarValue::Bool(*b),
            ScalarValue::Int32(v) => ScalarValue::Int32(*v),
            ScalarValue::Int64(v) => ScalarValue::Int64(*v),
            ScalarValue::Utf8(s) => ScalarValue::Utf8(s.clone()),
        }
    }
}

/// One physical column: rows of typed values with, per row, the definition
/// level and repetition level the storage engine recorded for it.
pub struct ColumnData {
    pub values: Vec<ScalarValue>,
    pub def_levels: Vec<i16>,
    pub rep_levels: Vec<i16>,
}

impl ColumnData {
    /// The three row-parallel vectors agree in length.
    pub open spec fn wf(self) -> bool {
        self.def_levels@.len() == self.values@.len() && self.rep_levels@.len()
            == self.values@.len()
    }

    /// Every stored value has the given storage type.
    pub open spec fn typed(self, t: LeafType) -> bool {
        forall|i: int| 0 <= i < self.values@.len() ==> scalar_has_type(
            #[trigger] self.values@[i],
            t,
        )
    }

    pub open spec fn num_rows(self) -> nat {
        self.values@.len()
    }

    /// A row-for-row copy of the column.
    pub fn duplicate(&self) -> (r: ColumnData)
        ensures
            r.values@ == self.values@,
            r.def_levels@ == self.def_levels@,
            r.rep_levels@ == self.rep_levels@,
    {
        let mut values: Vec<ScalarValue> = Vec::new();
        let mut i: usize = 0;
        while i < self.values.len()
            invariant
                i <= self.values@.len(),
                values@.len() == i,
                forall|j: int| 0 <= j < i ==> values@[j] == self.values@[j],
            decreases self.values@.len() - i,
        {
            values.push(self.values[i].duplicate());
            i = i + 1;
        }
        let mut def_levels: Vec<i16> = Vec::new();
        let mut j: usize = 0;
        while j < self.def_levels.len()
            invariant
                j <= self.def_levels@.len(),
                def_levels@.len() == j,
                forall|m: int| 0 <= m < j ==> def_levels@[m] == self.def_levels@[m],
            decreases self.def_levels@.len() - j,
        {
            def_levels.push(self.def_levels[j]);
            j = j + 1;
        }
        let mut rep_levels: Vec<i16> = Vec::new();
        let mut m: usize = 0;
        while m < self.rep_levels.len()
            invariant
                m <= self.rep_levels@.len(),
                rep_levels@.len() == m,
                forall|q: int| 0 <= q < m ==> rep_levels@[q] == self.rep_levels@[q],
            decreases self.rep_levels@.len() - m,
        {
            rep_levels.push(self.rep_levels[m]);
            m = m + 1;
        }
        proof {
            assert(values@ =~= self.values@);
            assert(def_levels@ =~= self.def_levels@);
            assert(rep_levels@ =~= self.rep_levels@);
        }
        ColumnData { values, def_levels, rep_levels }
    }
}

/// A column cursor registered under its fully qualified column path.
pub struct RegisteredColumn {
    pub path: Vec<String>,
    pub column: ColumnData,
}

/// The registry supplying one column cursor per fully qualified column
/// path, owned externally for the lifetime of one pass over a column group.
pub struct ColumnReaderRegistry {
    pub columns: Vec<RegisteredColumn>,
}

/// A column path as a sequence of name segments.
pub open spec fn path_model(p: Seq<String>) -> Seq<Seq<char>> {
    p.map_values(|s: String| s@)
}

/// The first registered column under the given path, if any.
pub open spec fn lookup_spec(cols: Seq<RegisteredColumn>, path: Seq<Seq<char>>) -> Option<
    ColumnData,
>
    decreases cols.len(),
{
    if cols.len() == 0 {
        None
    } else if path_model(cols[0].path@) == path {
        Some(cols[0].column)
    } else {
        lookup_spec(cols.drop_first(), path)
    }
}

/// Whether two paths name the same column.
pub fn path_eq(a: &Vec<String>, b: &Vec<String>) -> (r: bool)
    ensures
        r == (path_model(a@) == path_model(b@)),
{
    let n = a.len();
    if n != b.len() {
        proof {
            assert(path_model(a@).len() != path_model(b@).len());
        }
        return false;
    }
    let mut i: usize = 0;
    while i < n
        invariant
            n == a@.len(),
            n == b@.len(),
            i <= n,
            forall|j: int| 0 <= j < i ==> path_model(a@)[j] == path_model(b@)[j],
        decreases n - i,
    {
        if !(a[i] == b[i]) {
            proof {
                assert(path_model(a@)[i as int] != path_model(b@)[i as int]);
            }
            return false;
        }
        i = i + 1;
    }
    proof {
        assert(path_model(a@) =~= path_model(b@));
    }
    true
}

impl ColumnReaderRegistry {
    /// Pulls the column cursor registered under the given path: the first
    /// registration wins.
    pub fn lookup(&self, path: &Vec<String>) -> (r: Option<&ColumnData>)
        ensures
            match r {
                Some(c) => lookup_spec(self.columns@, path_model(path@)) == Some(*c),
                None => lookup_spec(self.columns@, path_model(path@)) is None,
            },
    {
        let n = self.columns.len();
        let mut i: usize = 0;
        proof {
            assert(self.columns@.skip(0) =~= self.columns@);
        }
        while i < n
            invariant
                n == self.columns@.len(),
                i <= n,
                lookup_spec(self.columns@, path_model(path@)) == lookup_spec(
                    self.columns@.skip(i as int),
                    path_model(path@),
                ),
            decreases n - i,
        {
            proof {
                assert(self.columns@.skip(i as int)[0] == self.columns@[i as int]);
                assert(self.columns@.skip(i as int).drop_first() =~= self.columns@.skip(i + 1));
            }
            if path_eq(&self.columns[i].path, path) {
                return Some(&self.columns[i].column);
            }
            i = i + 1;
        }
        proof {
            assert(self.columns@.skip(n as int) =~= Seq::<RegisteredColumn>::empty());
        }
        None
    }
}

} // verus!
