//! Operations on the sorted file table: lookup, insert-or-replace and
//! removal, with the lemmas that keep the table well-formed and relate the
//! operations to each other.

use vstd::prelude::*;

use crate::image::{sorted_entries, wf_entries, wf_entry, EntryModel};
use crate::order::{lemma_lex_irrefl, lemma_lex_trans, lemma_lex_trichotomy, lex_lt};

verus! {

/// The table holds an entry of this name.
pub open spec fn has_name(es: Seq<EntryModel>, name: Seq<u8>) -> bool {
    exists|i: int| 0 <= i < es.len() && (#[trigger] es[i]).name == name
}

/// The first entry of this name — the only one, in a well-formed table.
pub open spec fn entry_of(es: Seq<EntryModel>, name: Seq<u8>) -> EntryModel
    decreases es.len(),
{
    if es.len() == 0 {
        EntryModel { name, meta: crate::meta::default_meta_model(), data: Seq::<u8>::empty() }
    } else if es[0].name == name {
        es[0]
    } else {
        entry_of(es.drop_first(), name)
    }
}

/// The table after inserting `e` in name order, replacing any entry of the
/// same name.
pub open spec fn spec_insert(es: Seq<EntryModel>, e: EntryModel) -> Seq<EntryModel>
    decreases es.len(),
{
    if es.len() == 0 {
        seq![e]
    } else if lex_lt(es[0].name, e.name) {
        seq![es[0]] + spec_insert(es.drop_first(), e)
    } else if es[0].name == e.name {
        seq![e] + es.drop_first()
    } else {
        seq![e] + es
    }
}

/// The table after removing the entry of this name, if any.
pub open spec fn spec_remove(es: Seq<EntryModel>, name: Seq<u8>) -> Seq<EntryModel>
    decreases es.len(),
{
    if es.len() == 0 {
        es
    } else if es[0].name == name {
        es.drop_first()
    } else {
        seq![es[0]] + spec_remove(es.drop_first(), name)
    }
}

/// In a well-formed table, the entry found at an index is the entry of its
/// name.
pub proof fn lemma_entry_at_index(es: Seq<EntryModel>, i: int)
    requires
        sorted_entries(es),
        0 <= i < es.len(),
    ensures
        has_name(es, es[i].name),
        entry_of(es, es[i].name) == es[i],
    decreases es.len(),
{
    if i == 0 {
    } else {
        crate::image::lemma_sorted_pairwise(es, 0, i);
        lemma_lex_irrefl(es[0].name);
        assert(es[0].name != es[i].name);
        assert forall|a: int| 0 <= a && a + 1 < es.drop_first().len() implies lex_lt(
            es.drop_first()[a].name,
            #[trigger] es.drop_first()[a + 1].name,
        ) by {
            assert(es.drop_first()[a] == es[a + 1]);
            assert(es.drop_first()[a + 1] == es[a + 2]);
        }
        lemma_entry_at_index(es.drop_first(), i - 1);
        assert(es.drop_first()[i - 1] == es[i]);
    }
}

/// A sorted tail is sorted.
pub proof fn lemma_sorted_drop_first(es: Seq<EntryModel>)
    requires
        sorted_entries(es),
        es.len() > 0,
    ensures
        sorted_entries(es.drop_first()),
{
    assert forall|a: int| 0 <= a && a + 1 < es.drop_first().len() implies lex_lt(
        es.drop_first()[a].name,
        #[trigger] es.drop_first()[a + 1].name,
    ) by {
        assert(es.drop_first()[a] == es[a + 1]);
        assert(es.drop_first()[a + 1] == es[a + 2]);
    }
}

/// A well-formed tail is well-formed.
pub proof fn lemma_wf_drop_first(es: Seq<EntryModel>)
    requires
        wf_entries(es),
        es.len() > 0,
    ensures
        wf_entries(es.drop_first()),
{
    lemma_sorted_drop_first(es);
    assert forall|i: int| 0 <= i < es.drop_first().len() implies wf_entry(
        #[trigger] es.drop_first()[i],
    ) by {
        assert(es.drop_first()[i] == es[i + 1]);
    }
}

/// What insert does to the table, seen through lookups: the inserted name
/// maps to the new entry and every other name is untouched.
pub proof fn lemma_insert_lookup(es: Seq<EntryModel>, e: EntryModel, x: Seq<u8>)
    requires
        sorted_entries(es),
    ensures
        has_name(spec_insert(es, e), e.name),
        entry_of(spec_insert(es, e), e.name) == e,
        x != e.name ==> has_name(spec_insert(es, e), x) == has_name(es, x),
        x != e.name && has_name(es, x) ==> entry_of(spec_insert(es, e), x) == entry_of(es, x),
    decreases es.len(),
{
    let r = spec_insert(es, e);
    if es.len() == 0 {
        assert(r == seq![e]);
        assert(r[0] == e);
        assert(has_name(r, e.name));
        if x != e.name {
            if has_name(r, x) {
                let i = choose|i: int| 0 <= i < r.len() && (#[trigger] r[i]).name == x;
                assert(i == 0);
                assert(false);
            }
        }
    } else if lex_lt(es[0].name, e.name) {
        lemma_sorted_drop_first(es);
        lemma_insert_lookup(es.drop_first(), e, x);
        let sub = spec_insert(es.drop_first(), e);
        assert(r == seq![es[0]] + sub);
        assert(r.drop_first() =~= sub);
        assert(r[0] == es[0]);
        assert forall|i: int| 0 <= i < sub.len() implies r[i + 1] == sub[i] by {}
        lemma_lex_irrefl(e.name);
        assert(es[0].name != e.name);
        let j = choose|i: int| 0 <= i < sub.len() && (#[trigger] sub[i]).name == e.name;
        assert(r[j + 1].name == e.name);
        assert(has_name(r, e.name));
        assert(entry_of(r, e.name) == entry_of(sub, e.name));
        if x != e.name {
            if has_name(es, x) {
                let i = choose|i: int| 0 <= i < es.len() && (#[trigger] es[i]).name == x;
                if i == 0 {
                    assert(r[0].name == x);
                    assert(has_name(r, x));
                } else {
                    assert(es.drop_first()[i - 1].name == x);
                    assert(has_name(es.drop_first(), x));
                    let k = choose|k: int|
                        0 <= k < sub.len() && (#[trigger] sub[k]).name == x;
                    assert(r[k + 1].name == x);
                    assert(has_name(r, x));
                }
                if es[0].name == x {
                    assert(entry_of(r, x) == r[0]);
                } else {
                    assert(entry_of(r, x) == entry_of(sub, x));
                    assert(has_name(es.drop_first(), x)) by {
                        let i2 = choose|i2: int|
                            0 <= i2 < es.len() && (#[trigger] es[i2]).name == x;
                        assert(i2 != 0);
                        assert(es.drop_first()[i2 - 1].name == x);
                    }
                    assert(entry_of(es, x) == entry_of(es.drop_first(), x));
                }
            }
            if has_name(r, x) && !has_name(es, x) {
                let i = choose|i: int| 0 <= i < r.len() && (#[trigger] r[i]).name == x;
                if i == 0 {
                    assert(es[0].name == x);
                    assert(has_name(es, x));
                } else {
                    assert(sub[i - 1].name == x);
                    assert(has_name(sub, x));
                    assert(has_name(es.drop_first(), x));
                    let k = choose|k: int|
                        0 <= k < es.drop_first().len() && (#[trigger] es.drop_first()[k]).name
                            == x;
                    assert(es[k + 1].name == x);
                }
                assert(false);
            }
        }
    } else if es[0].name == e.name {
        assert(r == seq![e] + es.drop_first());
        assert(r.drop_first() =~= es.drop_first());
        assert(r[0] == e);
        assert(has_name(r, e.name));
        lemma_sorted_drop_first(es);
        if x != e.name {
            if has_name(es, x) {
                let i = choose|i: int| 0 <= i < es.len() && (#[trigger] es[i]).name == x;
                assert(i != 0);
                assert(r[i] == es[i]);
                assert(has_name(r, x));
                assert(entry_of(r, x) == entry_of(es.drop_first(), x));
                assert(entry_of(es, x) == entry_of(es.drop_first(), x));
            }
            if has_name(r, x) && !has_name(es, x) {
                let i = choose|i: int| 0 <= i < r.len() && (#[trigger] r[i]).name == x;
                assert(i != 0);
                assert(es[i].name == x);
                assert(false);
            }
        }
    } else {
        assert(r == seq![e] + es);
        assert(r.drop_first() =~= es);
        assert(r[0] == e);
        assert(has_name(r, e.name));
        if x != e.name {
            if has_name(es, x) {
                let i = choose|i: int| 0 <= i < es.len() && (#[trigger] es[i]).name == x;
                assert(r[i + 1] == es[i]);
                assert(has_name(r, x));
            }
            if has_name(r, x) && !has_name(es, x) {
                let i = choose|i: int| 0 <= i < r.len() && (#[trigger] r[i]).name == x;
                assert(i != 0);
                assert(es[i - 1].name == x);
                assert(false);
            }
            if has_name(es, x) {
                assert(entry_of(r, x) == entry_of(es, x));
            }
        }
    }
}

/// Insert keeps the table well-formed.
pub proof fn lemma_insert_wf(es: Seq<EntryModel>, e: EntryModel)
    requires
        wf_entries(es),
        wf_entry(e),
    ensures
        wf_entries(spec_insert(es, e)),
        es.len() <= spec_insert(es, e).len() <= es.len() + 1,
    decreases es.len(),
{
    let r = spec_insert(es, e);
    if es.len() == 0 {
        assert(r == seq![e]);
        assert forall|i: int| 0 <= i < r.len() implies wf_entry(#[trigger] r[i]) by {
            assert(r[i] == e);
        }
    } else if lex_lt(es[0].name, e.name) {
        lemma_wf_drop_first(es);
        lemma_insert_wf(es.drop_first(), e);
        let sub = spec_insert(es.drop_first(), e);
        assert(r == seq![es[0]] + sub);
        assert forall|i: int| 0 <= i < r.len() implies wf_entry(#[trigger] r[i]) by {
            if i == 0 {
            } else {
                assert(r[i] == sub[i - 1]);
            }
        }
        assert forall|i: int| 0 <= i && i + 1 < r.len() implies lex_lt(
            r[i].name,
            #[trigger] r[i + 1].name,
        ) by {
            if i == 0 {
                assert(r[1] == sub[0]);
                lemma_insert_head(es.drop_first(), e);
                if es.drop_first().len() == 0 {
                    assert(sub[0] == e);
                } else {
                    assert(sub[0] == e || sub[0] == es.drop_first()[0]);
                    if sub[0] == es.drop_first()[0] {
                        assert(lex_lt(es[0].name, es[1].name));
                        assert(es.drop_first()[0] == es[1]);
                    }
                }
            } else {
                assert(r[i] == sub[i - 1]);
                assert(r[i + 1] == sub[i]);
                assert(lex_lt(sub[i - 1].name, sub[(i - 1) + 1].name));
            }
        }
    } else if es[0].name == e.name {
        lemma_wf_drop_first(es);
        assert(r == seq![e] + es.drop_first());
        assert forall|i: int| 0 <= i < r.len() implies wf_entry(#[trigger] r[i]) by {
            if i > 0 {
                assert(r[i] == es.drop_first()[i - 1]);
            }
        }
        assert forall|i: int| 0 <= i && i + 1 < r.len() implies lex_lt(
            r[i].name,
            #[trigger] r[i + 1].name,
        ) by {
            if i == 0 {
                assert(r[0] == e);
                assert(r[1] == es.drop_first()[0]);
                assert(es.drop_first()[0] == es[1]);
                assert(lex_lt(es[0].name, es[1].name));
            } else {
                assert(r[i] == es[i]);
                assert(r[i + 1] == es[i + 1]);
            }
        }
    } else {
        lemma_lex_trichotomy_cases(es[0].name, e.name);
        assert(lex_lt(e.name, es[0].name));
        assert(r == seq![e] + es);
        assert forall|i: int| 0 <= i < r.len() implies wf_entry(#[trigger] r[i]) by {
            if i > 0 {
                assert(r[i] == es[i - 1]);
            }
        }
        assert forall|i: int| 0 <= i && i + 1 < r.len() implies lex_lt(
            r[i].name,
            #[trigger] r[i + 1].name,
        ) by {
            if i == 0 {
                assert(r[0] == e);
                assert(r[1] == es[0]);
            } else {
                assert(r[i] == es[i - 1]);
                assert(r[i + 1] == es[i]);
                assert(lex_lt(es[i - 1].name, es[(i - 1) + 1].name));
            }
        }
    }
}

/// The head of an inserted table is the new entry or the old head.
proof fn lemma_insert_head(es: Seq<EntryModel>, e: EntryModel)
    ensures
        spec_insert(es, e).len() > 0,
        spec_insert(es, e)[0] == e || (es.len() > 0 && spec_insert(es, e)[0] == es[0]),
{
}

/// Two names, neither below the other and not equal, cannot exist.
proof fn lemma_lex_trichotomy_cases(a: Seq<u8>, b: Seq<u8>)
    requires
        !lex_lt(a, b),
        a != b,
    ensures
        lex_lt(b, a),
{
    if !lex_lt(b, a) {
        lemma_lex_trichotomy(a, b);
    }
}

/// What removal does to the table, seen through lookups.
pub proof fn lemma_remove_lookup(es: Seq<EntryModel>, name: Seq<u8>, x: Seq<u8>)
    requires
        sorted_entries(es),
    ensures
        !has_name(spec_remove(es, name), name),
        x != name ==> has_name(spec_remove(es, name), x) == has_name(es, x),
        x != name && has_name(es, x) ==> entry_of(spec_remove(es, name), x) == entry_of(es, x),
        !has_name(es, name) ==> spec_remove(es, name) == es,
        has_name(es, name) ==> spec_remove(es, name).len() + 1 == es.len(),
    decreases es.len(),
{
    let r = spec_remove(es, name);
    if es.len() == 0 {
    } else if es[0].name == name {
        lemma_sorted_drop_first(es);
        assert(r == es.drop_first());
        if has_name(r, name) {
            let i = choose|i: int| 0 <= i < r.len() && (#[trigger] r[i]).name == name;
            assert(es[i + 1].name == name);
            crate::image::lemma_sorted_pairwise(es, 0, i + 1);
            lemma_lex_irrefl(name);
            assert(false);
        }
        if x != name {
            if has_name(es, x) {
                let i = choose|i: int| 0 <= i < es.len() && (#[trigger] es[i]).name == x;
                assert(i != 0);
                assert(r[i - 1] == es[i]);
                assert(has_name(r, x));
                assert(entry_of(es, x) == entry_of(es.drop_first(), x));
            }
            if has_name(r, x) {
                let i = choose|i: int| 0 <= i < r.len() && (#[trigger] r[i]).name == x;
                assert(es[i + 1].name == x);
                assert(has_name(es, x));
            }
        }
        assert(has_name(es, name)) by {
            assert(es[0].name == name);
        }
    } else {
        lemma_sorted_drop_first(es);
        lemma_remove_lookup(es.drop_first(), name, x);
        let sub = spec_remove(es.drop_first(), name);
        assert(r == seq![es[0]] + sub);
        assert(r.drop_first() =~= sub);
        assert(r[0] == es[0]);
        assert forall|i: int| 0 <= i < sub.len() implies r[i + 1] == sub[i] by {}
        if has_name(r, name) {
            let i = choose|i: int| 0 <= i < r.len() && (#[trigger] r[i]).name == name;
            assert(i != 0);
            assert(sub[i - 1].name == name);
            assert(has_name(sub, name));
            assert(false);
        }
        if x != name {
            if has_name(es, x) {
                let i = choose|i: int| 0 <= i < es.len() && (#[trigger] es[i]).name == x;
                if i == 0 {
                    assert(r[0].name == x);
                    assert(has_name(r, x));
                    assert(entry_of(r, x) == r[0]);
                    assert(entry_of(es, x) == es[0]);
                } else {
                    assert(es.drop_first()[i - 1].name == x);
                    assert(has_name(es.drop_first(), x));
                    let k = choose|k: int|
                        0 <= k < sub.len() && (#[trigger] sub[k]).name == x;
                    assert(r[k + 1].name == x);
                    assert(has_name(r, x));
                    if es[0].name == x {
                    } else {
                        assert(entry_of(r, x) == entry_of(sub, x));
                        assert(entry_of(es, x) == entry_of(es.drop_first(), x));
                    }
                }
            }
            if has_name(r, x) && !has_name(es, x) {
                let i = choose|i: int| 0 <= i < r.len() && (#[trigger] r[i]).name == x;
                if i == 0 {
                    assert(es[0].name == x);
                } else {
                    assert(sub[i - 1].name == x);
                    assert(has_name(sub, x));
                    assert(has_name(es.drop_first(), x));
                    let k = choose|k: int|
                        0 <= k < es.drop_first().len() && (#[trigger] es.drop_first()[k]).name
                            == x;
                    assert(es[k + 1].name == x);
                }
                assert(false);
            }
        }
        if !has_name(es, name) {
            assert(!has_name(es.drop_first(), name)) by {
                if has_name(es.drop_first(), name) {
                    let k = choose|k: int|
                        0 <= k < es.drop_first().len() && (#[trigger] es.drop_first()[k]).name
                            == name;
                    assert(es[k + 1].name == name);
                }
            }
            assert(sub == es.drop_first());
            assert(r =~= es);
        }
        if has_name(es, name) {
            assert(has_name(es.drop_first(), name)) by {
                let i = choose|i: int| 0 <= i < es.len() && (#[trigger] es[i]).name == name;
                assert(i != 0);
                assert(es.drop_first()[i - 1].name == name);
            }
        }
    }
}

/// Removal keeps the table well-formed.
pub proof fn lemma_remove_wf(es: Seq<EntryModel>, name: Seq<u8>)
    requires
        wf_entries(es),
    ensures
        wf_entries(spec_remove(es, name)),
        spec_remove(es, name).len() <= es.len(),
    decreases es.len(),
{
    let r = spec_remove(es, name);
    if es.len() == 0 {
    } else if es[0].name == name {
        lemma_wf_drop_first(es);
    } else {
        lemma_wf_drop_first(es);
        lemma_remove_wf(es.drop_first(), name);
        let sub = spec_remove(es.drop_first(), name);
        assert(r == seq![es[0]] + sub);
        assert forall|i: int| 0 <= i < r.len() implies wf_entry(#[trigger] r[i]) by {
            if i > 0 {
                assert(r[i] == sub[i - 1]);
            }
        }
        assert forall|i: int| 0 <= i && i + 1 < r.len() implies lex_lt(
            r[i].name,
            #[trigger] r[i + 1].name,
        ) by {
            if i == 0 {
                lemma_remove_head(es.drop_first(), name);
                assert(r[1] == sub[0]);
                if sub[0] == es.drop_first()[0] {
                    assert(es.drop_first()[0] == es[1]);
                    assert(lex_lt(es[0].name, es[1].name));
                } else {
                    assert(es.drop_first().len() >= 2);
                    assert(sub[0] == es.drop_first()[1]);
                    assert(es.drop_first()[1] == es[2]);
                    crate::image::lemma_sorted_pairwise(es, 0, 2);
                }
            } else {
                assert(r[i] == sub[i - 1]);
                assert(r[i + 1] == sub[i]);
                assert(lex_lt(sub[i - 1].name, sub[(i - 1) + 1].name));
            }
        }
    }
}

/// Inserting at the position the sorted scan finds: with every name before
/// `pos` below the new name, insert places the new entry at `pos`,
/// replacing the entry there when the names are equal.
pub proof fn lemma_insert_at_pos(es: Seq<EntryModel>, e: EntryModel, pos: int, replaces: bool)
    requires
        sorted_entries(es),
        0 <= pos <= es.len(),
        forall|j: int| 0 <= j < pos ==> lex_lt((#[trigger] es[j]).name, e.name),
        replaces ==> pos < es.len() && es[pos].name == e.name,
        !replaces ==> (pos < es.len() ==> lex_lt(e.name, es[pos].name)),
    ensures
        spec_insert(es, e) == es.subrange(0, pos) + seq![e] + es.skip(
            pos + if replaces {
                1int
            } else {
                0int
            },
        ),
    decreases es.len(),
{
    let drop = if replaces {
        1int
    } else {
        0int
    };
    if pos == 0 {
        if es.len() == 0 {
            assert(spec_insert(es, e) == seq![e]);
            assert(es.subrange(0, 0) + seq![e] + es.skip(0) =~= seq![e]);
        } else if replaces {
            lemma_lex_irrefl(e.name);
            assert(!lex_lt(es[0].name, e.name));
            assert(spec_insert(es, e) == seq![e] + es.drop_first());
            assert(es.subrange(0, 0) + seq![e] + es.skip(1) =~= seq![e] + es.drop_first());
        } else {
            lemma_lex_irrefl(e.name);
            if lex_lt(es[0].name, e.name) {
                lemma_lex_trans(e.name, es[0].name, e.name);
            }
            assert(!lex_lt(es[0].name, e.name));
            assert(es[0].name != e.name) by {
                if es[0].name == e.name {
                    assert(lex_lt(e.name, e.name));
                }
            }
            assert(spec_insert(es, e) == seq![e] + es);
            assert(es.subrange(0, 0) + seq![e] + es.skip(0) =~= seq![e] + es);
        }
    } else {
        assert(lex_lt(es[0].name, e.name));
        lemma_sorted_drop_first(es);
        assert forall|j: int| 0 <= j < pos - 1 implies lex_lt(
            (#[trigger] es.drop_first()[j]).name,
            e.name,
        ) by {
            assert(es.drop_first()[j] == es[j + 1]);
        }
        if replaces {
            assert(es.drop_first()[pos - 1] == es[pos]);
        }
        if !replaces && pos < es.len() {
            assert(es.drop_first()[pos - 1] == es[pos]);
        }
        lemma_insert_at_pos(es.drop_first(), e, pos - 1, replaces);
        assert(spec_insert(es, e) == seq![es[0]] + spec_insert(es.drop_first(), e));
        assert(seq![es[0]] + (es.drop_first().subrange(0, pos - 1) + seq![e]
            + es.drop_first().skip(pos - 1 + drop)) =~= es.subrange(0, pos) + seq![e] + es.skip(
            pos + drop,
        ));
    }
}

/// Removing the name found at an index removes exactly that position.
pub proof fn lemma_remove_at_index(es: Seq<EntryModel>, i: int)
    requires
        sorted_entries(es),
        0 <= i < es.len(),
    ensures
        spec_remove(es, es[i].name) == es.subrange(0, i) + es.skip(i + 1),
    decreases es.len(),
{
    let name = es[i].name;
    if i == 0 {
        assert(spec_remove(es, name) == es.drop_first());
        assert(es.subrange(0, 0) + es.skip(1) =~= es.drop_first());
    } else {
        crate::image::lemma_sorted_pairwise(es, 0, i);
        lemma_lex_irrefl(es[0].name);
        assert(es[0].name != name);
        lemma_sorted_drop_first(es);
        assert(es.drop_first()[i - 1] == es[i]);
        lemma_remove_at_index(es.drop_first(), i - 1);
        assert(spec_remove(es, name) == seq![es[0]] + spec_remove(es.drop_first(), name));
        assert(seq![es[0]] + (es.drop_first().subrange(0, i - 1) + es.drop_first().skip(i))
            =~= es.subrange(0, i) + es.skip(i + 1));
    }
}

/// The head after a removal is the old head or, when the head itself went,
/// the entry after it.
proof fn lemma_remove_head(es: Seq<EntryModel>, name: Seq<u8>)
    requires
        es.len() > 0,
        spec_remove(es, name).len() > 0,
    ensures
        spec_remove(es, name)[0] == es[0] || (es.len() >= 2 && spec_remove(es, name)[0] == es[1]),
{
    if es[0].name == name {
        assert(spec_remove(es, name) == es.drop_first());
        assert(es.drop_first()[0] == es[1]);
    }
}

} // verus!
