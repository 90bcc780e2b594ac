use vstd::prelude::*;
use vstd::string::StrSliceExecFns;
use crate::classify::{cell_nonempty, cell_width, classify, classify_spec, CellClass};
use crate::field::{Field, FieldModel};
use crate::text::{trim_str, trimmed};

verus! {

/// Mathematical model of the whole aggregate: the trimmed header labels, one
/// profile model per discovered column position, and the number of rows
/// folded so far.
#[verifier::ext_equal]
pub ghost struct AggModel {
    pub titles: Seq<Seq<char>>,
    pub fields: Seq<FieldModel>,
    pub rows: nat,
}

/// Label for column position `p`: the header cell at that index, or the
/// placeholder when the header is absent or shorter than the row.
pub open spec fn title_at(titles: Seq<Seq<char>>, p: int) -> Seq<char> {
    if 0 <= p < titles.len() {
        titles[p]
    } else {
        "unknown"@
    }
}

/// Fold one cell into an existing column profile: widen the maximum, count
/// the cell's classification, and latch the non-empty flag.
pub open spec fn step_field(m: FieldModel, cell: Seq<char>) -> FieldModel {
    FieldModel {
        pos: m.pos,
        title: m.title,
        max_width: if cell_width(cell) > m.max_width {
            cell_width(cell)
        } else {
            m.max_width
        },
        ints: m.ints + if classify_spec(cell) == CellClass::Integer {
            1nat
        } else {
            0nat
        },
        floats: m.floats + if classify_spec(cell) == CellClass::Float {
            1nat
        } else {
            0nat
        },
        texts: m.texts + if classify_spec(cell) == CellClass::Text {
            1nat
        } else {
            0nat
        },
        nonempty: m.nonempty || cell_nonempty(cell),
    }
}

/// The profile created when position `p` is first seen, folding its first
/// cell.
pub open spec fn first_field(p: nat, cell: Seq<char>, title: Seq<char>) -> FieldModel {
    FieldModel {
        pos: p,
        title: title,
        max_width: cell_width(cell),
        ints: if classify_spec(cell) == CellClass::Integer {
            1nat
        } else {
            0nat
        },
        floats: if classify_spec(cell) == CellClass::Float {
            1nat
        } else {
            0nat
        },
        texts: if classify_spec(cell) == CellClass::Text {
            1nat
        } else {
            0nat
        },
        nonempty: cell_nonempty(cell),
    }
}

/// Fold one row into the aggregate. Each cell goes to the profile at its own
/// index; a row wider than every earlier row creates new profiles at the
/// tail; a narrower row leaves the trailing profiles untouched.
pub open spec fn step_row(m: AggModel, row: Seq<Seq<char>>) -> AggModel {
    let ncols = if m.fields.len() >= row.len() {
        m.fields.len()
    } else {
        row.len()
    };
    AggModel {
        titles: m.titles,
        rows: m.rows + 1,
        fields: Seq::new(
            ncols,
            |p: int|
                if p < m.fields.len() {
                    if p < row.len() {
                        step_field(m.fields[p], row[p])
                    } else {
                        m.fields[p]
                    }
                } else {
                    first_field(p as nat, row[p], title_at(m.titles, p))
                },
        ),
    }
}

/// A fresh aggregate over the given (already trimmed) header labels.
pub open spec fn init_model(titles: Seq<Seq<char>>) -> AggModel {
    AggModel { titles: titles, fields: Seq::empty(), rows: 0 }
}

/// The profile aggregator: owns one [`Field`] per column position discovered
/// in the stream, keyed densely by position in order of first appearance.
pub struct Aggregator {
    /// One profile per discovered column position, indexed by position.
    pub fields: Vec<Field>,
    /// Trimmed header labels, empty when the input has no header row.
    pub titles: Vec<String>,
    /// Number of rows folded so far.
    pub rows_seen: u64,
}

impl View for Aggregator {
    type V = AggModel;

    open spec fn view(&self) -> AggModel {
        AggModel {
            titles: self.titles.deep_view(),
            fields: self.fields@.map_values(|f: Field| f@),
            rows: self.rows_seen as nat,
        }
    }
}

impl Aggregator {
    /// Structural soundness: every profile sits at its own position, and no
    /// counter can outrun the number of rows folded.
    pub open spec fn wf(self) -> bool {
        &&& forall|p: int|
            0 <= p < self.fields@.len() ==> (#[trigger] self.fields@[p])@.pos == p
        &&& forall|p: int|
            0 <= p < self.fields@.len() ==> (#[trigger] self.fields@[p])@.tally()
                <= self.rows_seen
    }

    /// A fresh aggregator: no profiles, no rows folded, and the header labels
    /// (trimmed) kept for naming columns as they are discovered. Pass no
    /// labels when the input has no header row.
    pub fn new(headers: &Vec<String>) -> (agg: Aggregator)
        ensures
            agg.wf(),
            agg@ == init_model(headers.deep_view().map_values(|t: Seq<char>| trimmed(t))),
    {
        let mut titles: Vec<String> = Vec::new();
        let mut i: usize = 0;
        while i < headers.len()
            invariant
                0 <= i <= headers@.len(),
                titles@.len() == i,
                forall|j: int| 0 <= j < i ==> (#[trigger] titles@[j])@ == trimmed(headers@[j]@),
            decreases headers@.len() - i,
        {
            let t = trim_str(headers[i].as_str());
            titles.push(t.to_owned());
            i = i + 1;
        }
        let agg = Aggregator { fields: Vec::new(), titles, rows_seen: 0 };
        proof {
            let want = headers.deep_view().map_values(|t: Seq<char>| trimmed(t));
            assert forall|j: int| 0 <= j < headers@.len() implies agg@.titles[j] == want[j] by {
                assert(headers.deep_view()[j] == headers@[j]@);
            }
            assert(agg@.titles =~= want);
            assert(agg@.fields =~= Seq::<FieldModel>::empty());
            assert(agg@ =~= init_model(want));
        }
        agg
    }

    /// Fold one row of raw cells into the aggregate, cell by cell, left to
    /// right. The cell at index `p` updates (or first creates) the profile at
    /// position `p`; positions beyond the row's width are untouched.
    pub fn ingest(&mut self, row: &Vec<String>)
        requires
            old(self).wf(),
            old(self).rows_seen < u64::MAX,
        ensures
            final(self).wf(),
            final(self)@ == step_row(old(self)@, row.deep_view()),
    {
        let ghost m0 = self@;
        let ghost rv = row.deep_view();
        let ghost target = step_row(m0, rv);
        let mut i: usize = 0;
        while i < row.len()
            invariant
                0 <= i <= row@.len(),
                rv == row.deep_view(),
                rv.len() == row@.len(),
                m0.rows < u64::MAX,
                forall|p: int| 0 <= p < m0.fields.len() ==> (#[trigger] m0.fields[p]).tally() <= m0.rows,
                self.rows_seen as nat == m0.rows,
                self@.titles == m0.titles,
                self.fields@.len() == if m0.fields.len() >= i as nat {
                    m0.fields.len()
                } else {
                    i as nat
                },
                forall|p: int|
                    0 <= p < i && p < m0.fields.len() ==> (#[trigger] self.fields@[p])@
                        == step_field(m0.fields[p], rv[p]),
                forall|p: int|
                    0 <= p < i && m0.fields.len() <= p ==> (#[trigger] self.fields@[p])@
                        == first_field(p as nat, rv[p], title_at(m0.titles, p)),
                forall|p: int|
                    i <= p < m0.fields.len() ==> (#[trigger] self.fields@[p])@ == m0.fields[p],
                forall|p: int|
                    0 <= p < self.fields@.len() ==> (#[trigger] self.fields@[p])@.pos == p,
            decreases row@.len() - i,
        {
            proof {
                assert(rv[i as int] == row@[i as int]@);
            }
            let cell: &String = &row[i];
            let t = trim_str(cell.as_str());
            let w = t.unicode_len();
            let cls = classify(cell.as_str());
            let has = w > 0;
            if i < self.fields.len() {
                let fld = &mut self.fields[i];
                if w > fld.max_len {
                    fld.max_len = w;
                }
                match cls {
                    CellClass::Integer => {
                        fld.types.0 = fld.types.0 + 1;
                    },
                    CellClass::Float => {
                        fld.types.1 = fld.types.1 + 1;
                    },
                    CellClass::Text => {
                        fld.types.2 = fld.types.2 + 1;
                    },
                }
                fld.has_value(has);
                proof {
                    assert(self.fields@[i as int]@ =~= step_field(m0.fields[i as int], rv[i as int]));
                }
            } else {
                let title: String = if i < self.titles.len() {
                    self.titles[i].clone()
                } else {
                    "unknown".to_owned()
                };
                proof {
                    assert(title@ == title_at(m0.titles, i as int));
                }
                let fld = Field {
                    pos: i,
                    max_len: w,
                    title: title,
                    types: match cls {
                        CellClass::Integer => (1u64, 0u64, 0u64),
                        CellClass::Float => (0u64, 1u64, 0u64),
                        CellClass::Text => (0u64, 0u64, 1u64),
                    },
                    has_value: has,
                };
                self.fields.push(fld);
                proof {
                    assert(self.fields@[i as int]@ =~= first_field(
                        i as nat,
                        rv[i as int],
                        title_at(m0.titles, i as int),
                    ));
                }
            }
            i = i + 1;
        }
        self.rows_seen = self.rows_seen + 1;
        proof {
            assert(self@.fields =~= target.fields);
            assert(self@ =~= target);
        }
    }

    /// The number of column positions discovered so far.
    pub fn column_count(&self) -> (n: usize)
        ensures
            n == self@.fields.len(),
    {
        self.fields.len()
    }
}

/// Whether ingestion should stop at the row ceiling: true exactly when a
/// ceiling was supplied and at least that many rows have been folded.
/// Reaching the ceiling is a normal, successful stop, not an error.
pub fn reached_ceiling(ceiling: &Option<u64>, rows_folded: u64) -> (stop: bool)
    ensures
        stop == (ceiling matches Some(c) && rows_folded >= *c),
{
    match ceiling {
        Some(c) => rows_folded >= *c,
        None => false,
    }
}

} // verus!
