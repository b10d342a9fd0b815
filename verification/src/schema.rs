//! The schema registry: the authoritative in-memory view of the
//! destination table's known column set, and the detection of novel
//! fields in incoming documents.

use vstd::prelude::*;
use crate::text::views_of;

verus! {

/// A column set is well formed when no name appears twice.
pub open spec fn col_set_wf(cols: Seq<Seq<char>>) -> bool {
    forall|i: int, j: int|
        0 <= i < cols.len() && 0 <= j < cols.len() && i != j ==> #[trigger] cols[i]
            != #[trigger] cols[j]
}

/// The fixed base columns the destination table starts with.
pub open spec fn base_columns() -> Seq<Seq<char>> {
    seq!["_id"@, "itemid"@, "operation_type"@, "collection"@, "type"@, "timestamp"@]
}

/// A column set extended by one name: unchanged when the name is
/// already present, else the name appended.
pub open spec fn add_name(cols: Seq<Seq<char>>, name: Seq<char>) -> Seq<Seq<char>> {
    if cols.contains(name) {
        cols
    } else {
        cols.push(name)
    }
}

/// A column set extended by a batch of names, in order.
pub open spec fn add_all(cols: Seq<Seq<char>>, names: Seq<Seq<char>>) -> Seq<Seq<char>>
    decreases names.len(),
{
    if names.len() == 0 {
        cols
    } else {
        add_name(add_all(cols, names.drop_last()), names.last())
    }
}

/// The subsequence of `keys` that is absent from `cols`, in the order
/// the keys appear.
pub open spec fn novel_of(cols: Seq<Seq<char>>, keys: Seq<Seq<char>>) -> Seq<Seq<char>>
    decreases keys.len(),
{
    if keys.len() == 0 {
        Seq::empty()
    } else {
        novel_of(cols, keys.drop_last()) + (if cols.contains(keys.last()) {
            Seq::empty()
        } else {
            seq![keys.last()]
        })
    }
}

/// How many times `name` occurs in `cols`.
pub open spec fn count_of(cols: Seq<Seq<char>>, name: Seq<char>) -> nat
    decreases cols.len(),
{
    if cols.len() == 0 {
        0
    } else {
        count_of(cols.drop_last(), name) + (if cols.last() == name {
            1nat
        } else {
            0nat
        })
    }
}

/// The registry of destination columns known to exist. It starts from
/// the fixed base column set and grows monotonically: a name is
/// recorded only after the destination accepted the column, and is
/// never removed.
pub struct KnownColumnSet {
    cols: Vec<String>,
}

impl View for KnownColumnSet {
    type V = Seq<Seq<char>>;

    closed spec fn view(&self) -> Seq<Seq<char>> {
        views_of(self.cols@)
    }
}

impl KnownColumnSet {
    /// No column name is recorded twice.
    pub open spec fn wf(&self) -> bool {
        col_set_wf(self@)
    }

    /// The registry at startup: exactly the base columns.
    pub fn new() -> (r: KnownColumnSet)
        ensures
            r@ == base_columns(),
            r.wf(),
    {
        let mut cols: Vec<String> = Vec::new();
        cols.push("_id".to_owned());
        cols.push("itemid".to_owned());
        cols.push("operation_type".to_owned());
        cols.push("collection".to_owned());
        cols.push("type".to_owned());
        cols.push("timestamp".to_owned());
        let r = KnownColumnSet { cols };
        proof {
            assert(r@ =~= base_columns());
            reveal_strlit("_id");
            reveal_strlit("itemid");
            reveal_strlit("operation_type");
            reveal_strlit("collection");
            reveal_strlit("type");
            reveal_strlit("timestamp");
            assert(base_columns()[0].len() == 3);
            assert(base_columns()[1].len() == 6);
            assert(base_columns()[2].len() == 14);
            assert(base_columns()[3].len() == 10);
            assert(base_columns()[4].len() == 4);
            assert(base_columns()[5].len() == 9);
            assert(r.wf());
        }
        r
    }

    /// Whether `name` is a known column.
    pub fn contains_name(&self, name: &String) -> (r: bool)
        ensures
            r == self@.contains(name@),
    {
        let n = self.cols.len();
        let mut i: usize = 0;
        while i < n
            invariant
                n == self.cols@.len(),
                i <= n,
                forall|k: int| 0 <= k < i ==> self@[k] != name@,
            decreases n - i,
        {
            if self.cols[i] == *name {
                proof {
                    assert(self@[i as int] == name@);
                }
                return true;
            }
            i = i + 1;
        }
        proof {
            assert(forall|k: int| 0 <= k < self@.len() ==> self@[k] != name@);
        }
        false
    }

    /// Records a column as known, after the destination accepted it; a
    /// name already present is left alone.
    pub fn record_migrated(&mut self, name: String)
        requires
            old(self).wf(),
        ensures
            final(self).wf(),
            final(self)@ == add_name(old(self)@, name@),
    {
        if !self.contains_name(&name) {
            proof {
                assert(forall|k: int| 0 <= k < self@.len() ==> self@[k] != name@);
            }
            let ghost before = self@;
            self.cols.push(name);
            proof {
                assert(self@ =~= before.push(name@));
            }
        }
    }

    /// The subset of the given field names not yet known, in input
    /// order — the registry's novel-field detection.
    pub fn novel_fields(&self, fields: &Vec<String>) -> (r: Vec<String>)
        ensures
            views_of(r@) == novel_of(self@, views_of(fields@)),
    {
        let n = fields.len();
        let mut out: Vec<String> = Vec::new();
        let mut i: usize = 0;
        proof {
            assert(views_of(fields@.take(0)) =~= Seq::<Seq<char>>::empty());
            assert(views_of(out@) =~= novel_of(self@, views_of(fields@.take(0))));
        }
        while i < n
            invariant
                n == fields@.len(),
                i <= n,
                views_of(out@) == novel_of(self@, views_of(fields@.take(i as int))),
            decreases n - i,
        {
            if !self.contains_name(&fields[i]) {
                out.push(fields[i].clone());
            }
            proof {
                let t = views_of(fields@.take(i + 1));
                assert(t.drop_last() =~= views_of(fields@.take(i as int)));
                assert(t.last() == fields@[i as int]@);
                assert(views_of(out@) =~= novel_of(self@, t));
            }
            i = i + 1;
        }
        proof {
            assert(fields@.take(n as int) =~= fields@);
        }
        out
    }
}

/// In a well-formed column set a present name occurs exactly once, and
/// an absent one not at all.
pub proof fn lemma_count_distinct(cols: Seq<Seq<char>>, name: Seq<char>)
    requires
        col_set_wf(cols),
    ensures
        cols.contains(name) ==> count_of(cols, name) == 1,
        !cols.contains(name) ==> count_of(cols, name) == 0,
    decreases cols.len(),
{
    if cols.len() > 0 {
        let p = cols.drop_last();
        assert(col_set_wf(p));
        lemma_count_distinct(p, name);
        if cols.last() == name {
            assert forall|k: int| 0 <= k < p.len() implies p[k] != name by {
                assert(p[k] == cols[k]);
                assert(cols[k] != cols[cols.len() - 1]);
            }
            assert(!p.contains(name));
            assert(cols[cols.len() - 1] == name);
            assert(cols.contains(name));
        } else {
            if cols.contains(name) {
                let k = choose|k: int| 0 <= k < cols.len() && cols[k] == name;
                assert(p[k] == name);
                assert(p.contains(name));
            }
            if p.contains(name) {
                let k = choose|k: int| 0 <= k < p.len() && p[k] == name;
                assert(cols[k] == name);
                assert(cols.contains(name));
            }
        }
    }
}

/// Law (idempotent migration): migrating a field name into a
/// well-formed column set leaves the set well formed and containing the
/// name exactly once; migrating it a second time changes nothing, and a
/// subsequent novelty check on that name reports nothing new.
pub proof fn lemma_migrate_idempotent(cols: Seq<Seq<char>>, name: Seq<char>)
    requires
        col_set_wf(cols),
    ensures
        add_name(cols, name).contains(name),
        col_set_wf(add_name(cols, name)),
        add_name(add_name(cols, name), name) == add_name(cols, name),
        count_of(add_name(cols, name), name) == 1,
        novel_of(add_name(cols, name), seq![name]) == Seq::<Seq<char>>::empty(),
{
    let k1 = add_name(cols, name);
    if cols.contains(name) {
        assert(k1 == cols);
    } else {
        assert(k1 == cols.push(name));
        assert(k1[cols.len() as int] == name);
        assert(k1.contains(name));
        assert forall|i: int, j: int|
            0 <= i < k1.len() && 0 <= j < k1.len() && i != j implies #[trigger] k1[i]
            != #[trigger] k1[j] by {
            assert(forall|k: int| 0 <= k < cols.len() ==> cols[k] != name);
            if i < cols.len() && j < cols.len() {
                assert(k1[i] == cols[i]);
                assert(k1[j] == cols[j]);
            } else if i < cols.len() {
                assert(k1[i] == cols[i]);
                assert(k1[j] == name);
            } else {
                assert(k1[i] == name);
                assert(k1[j] == cols[j]);
            }
        }
    }
    lemma_count_distinct(k1, name);
    assert(seq![name].drop_last() =~= Seq::<Seq<char>>::empty());
    assert(novel_of(k1, Seq::<Seq<char>>::empty()) == Seq::<Seq<char>>::empty());
    assert(seq![name].last() == name);
    assert(novel_of(k1, seq![name]) =~= Seq::<Seq<char>>::empty());
}

/// Extending a well-formed column set by one name keeps it well formed,
/// and the extended set contains exactly the old names and the new one.
pub proof fn lemma_add_name_contains(cols: Seq<Seq<char>>, name: Seq<char>)
    requires
        col_set_wf(cols),
    ensures
        col_set_wf(add_name(cols, name)),
        forall|x: Seq<char>| #[trigger]
            add_name(cols, name).contains(x) <==> (cols.contains(x) || x == name),
{
    lemma_migrate_idempotent(cols, name);
    let k1 = add_name(cols, name);
    assert forall|x: Seq<char>| #[trigger] k1.contains(x) implies (cols.contains(x) || x
        == name) by {
        let k = choose|k: int| 0 <= k < k1.len() && k1[k] == x;
        if k < cols.len() {
            assert(cols[k] == x);
            assert(cols.contains(x));
        }
    }
    assert forall|x: Seq<char>| (cols.contains(x) || x == name) implies #[trigger] k1.contains(
        x,
    ) by {
        if cols.contains(x) {
            let k = choose|k: int| 0 <= k < cols.len() && cols[k] == x;
            assert(k1[k] == x);
        }
    }
}

/// Extending a well-formed column set by a batch of names keeps it well
/// formed, and the result contains exactly the old names and the batch.
pub proof fn lemma_add_all_contains(cols: Seq<Seq<char>>, names: Seq<Seq<char>>)
    requires
        col_set_wf(cols),
    ensures
        col_set_wf(add_all(cols, names)),
        forall|x: Seq<char>| #[trigger]
            add_all(cols, names).contains(x) <==> (cols.contains(x) || names.contains(x)),
    decreases names.len(),
{
    if names.len() == 0 {
        assert(forall|x: Seq<char>| !names.contains(x));
    } else {
        let p = names.drop_last();
        lemma_add_all_contains(cols, p);
        lemma_add_name_contains(add_all(cols, p), names.last());
        assert forall|x: Seq<char>| #[trigger]
            names.contains(x) implies (p.contains(x) || x == names.last()) by {
            let k = choose|k: int| 0 <= k < names.len() && names[k] == x;
            if k < p.len() {
                assert(p[k] == x);
            }
        }
        assert forall|x: Seq<char>| (p.contains(x) || x == names.last()) implies #[trigger]
            names.contains(x) by {
            if p.contains(x) {
                let k = choose|k: int| 0 <= k < p.len() && p[k] == x;
                assert(names[k] == x);
            } else {
                assert(names[names.len() - 1] == x);
            }
        }
    }
}

/// The novel fields of a key set are exactly the keys absent from the
/// column set.
pub proof fn lemma_novel_membership(cols: Seq<Seq<char>>, keys: Seq<Seq<char>>)
    ensures
        forall|x: Seq<char>| #[trigger]
            novel_of(cols, keys).contains(x) <==> (keys.contains(x) && !cols.contains(x)),
    decreases keys.len(),
{
    if keys.len() == 0 {
        assert(forall|x: Seq<char>| !keys.contains(x));
        assert(forall|x: Seq<char>| !novel_of(cols, keys).contains(x));
    } else {
        let p = keys.drop_last();
        lemma_novel_membership(cols, p);
        let nv = novel_of(cols, keys);
        let nvp = novel_of(cols, p);
        assert forall|x: Seq<char>| #[trigger] nv.contains(x) implies (keys.contains(x)
            && !cols.contains(x)) by {
            let k = choose|k: int| 0 <= k < nv.len() && nv[k] == x;
            if k < nvp.len() {
                assert(nvp[k] == x);
                assert(nvp.contains(x));
                let m = choose|m: int| 0 <= m < p.len() && p[m] == x;
                assert(keys[m] == x);
            } else {
                assert(!cols.contains(keys.last()));
                assert(x == keys.last());
                assert(keys[keys.len() - 1] == x);
            }
        }
        assert forall|x: Seq<char>| (keys.contains(x) && !cols.contains(x)) implies #[trigger]
            nv.contains(x) by {
            let k = choose|k: int| 0 <= k < keys.len() && keys[k] == x;
            if k < p.len() {
                assert(p[k] == x);
                assert(p.contains(x));
                assert(nvp.contains(x));
                let m = choose|m: int| 0 <= m < nvp.len() && nvp[m] == x;
                assert(nv[m] == x);
            } else {
                assert(x == keys.last());
                assert(nv[nvp.len() as int] == x);
            }
        }
    }
}

/// A key set every member of which is already known yields no novel
/// fields.
pub proof fn lemma_novel_none(cols: Seq<Seq<char>>, keys: Seq<Seq<char>>)
    requires
        forall|x: Seq<char>| #[trigger] keys.contains(x) ==> cols.contains(x),
    ensures
        novel_of(cols, keys) == Seq::<Seq<char>>::empty(),
    decreases keys.len(),
{
    if keys.len() > 0 {
        let p = keys.drop_last();
        assert forall|x: Seq<char>| #[trigger] p.contains(x) implies cols.contains(x) by {
            let k = choose|k: int| 0 <= k < p.len() && p[k] == x;
            assert(keys[k] == x);
            assert(keys.contains(x));
        }
        lemma_novel_none(cols, p);
        assert(keys[keys.len() - 1] == keys.last());
        assert(keys.contains(keys.last()));
        assert(cols.contains(keys.last()));
        assert(novel_of(cols, keys) =~= Seq::<Seq<char>>::empty());
    }
}

/// Law (novel-field detection): the novel fields of a document are
/// exactly its field names not yet in the column set; once they are all
/// migrated into a well-formed column set, a second check of the same
/// field names finds nothing new.
pub proof fn lemma_novel_fields_migrated(cols: Seq<Seq<char>>, keys: Seq<Seq<char>>)
    requires
        col_set_wf(cols),
    ensures
        forall|x: Seq<char>| #[trigger]
            novel_of(cols, keys).contains(x) <==> (keys.contains(x) && !cols.contains(x)),
        col_set_wf(add_all(cols, novel_of(cols, keys))),
        novel_of(add_all(cols, novel_of(cols, keys)), keys) == Seq::<Seq<char>>::empty(),
{
    lemma_novel_membership(cols, keys);
    lemma_add_all_contains(cols, novel_of(cols, keys));
    let grown = add_all(cols, novel_of(cols, keys));
    assert forall|x: Seq<char>| #[trigger] keys.contains(x) implies grown.contains(x) by {
        if !cols.contains(x) {
            assert(novel_of(cols, keys).contains(x));
        }
    }
    lemma_novel_none(grown, keys);
}

} // verus!
