//! The codex: the list of records kept in a JSON-lines file.
//!
//! This module holds what the commands decide about the codex: whether its
//! text is in the JSON format, whether an alias is taken, which records a
//! removal or a renaming leaves, and the exact text written back to the file.
use crate::models::{Record, RecordView, views};
use crate::text::{
    chars_of, has_char, is_whitespace, join3, lemma_trim_end_prefix, lemma_trim_start_suffix,
    string_of, extend_chars, trim, trim_chars, trim_end, trim_start, trim_start_chars,
};
use vstd::prelude::*;

verus! {

broadcast use vstd::string::group_string_axioms;

// ---------------------------------------------------------------------------
// Specifications over record values
// ---------------------------------------------------------------------------

/// Some record of `rs` has the alias `a`.
pub open spec fn has_alias(rs: Seq<RecordView>, a: Seq<char>) -> bool {
    exists|i: int| 0 <= i < rs.len() && #[trigger] rs[i].alias == a
}

/// No two records of `rs` share an alias.
pub open spec fn aliases_unique(rs: Seq<RecordView>) -> bool {
    forall|i: int, j: int|
        0 <= i < rs.len() && 0 <= j < rs.len() && i != j ==> #[trigger] rs[i].alias
            != #[trigger] rs[j].alias
}

/// The records of `rs` whose alias is not `a`, in their order.
pub open spec fn without_alias(rs: Seq<RecordView>, a: Seq<char>) -> Seq<RecordView>
    decreases rs.len(),
{
    if rs.len() == 0 {
        rs
    } else if rs.last().alias == a {
        without_alias(rs.drop_last(), a)
    } else {
        without_alias(rs.drop_last(), a).push(rs.last())
    }
}

/// `i` is the first position of `rs` that holds the alias `a`.
pub open spec fn is_first_with_alias(rs: Seq<RecordView>, a: Seq<char>, i: int) -> bool {
    &&& 0 <= i < rs.len()
    &&& rs[i].alias == a
    &&& forall|j: int| 0 <= j < i ==> #[trigger] rs[j].alias != a
}

/// The first position of `rs` that holds the alias `a` (meaningful when
/// `has_alias(rs, a)`).
pub open spec fn first_with_alias(rs: Seq<RecordView>, a: Seq<char>) -> int {
    choose|i: int| is_first_with_alias(rs, a, i)
}

/// `r` under the alias `a`, all else kept.
pub open spec fn with_alias(r: RecordView, a: Seq<char>) -> RecordView {
    RecordView {
        alias: a,
        secret: r.secret,
        is_unencrypted: r.is_unencrypted,
        algorithm: r.algorithm,
        digits: r.digits,
        period: r.period,
        created_at: r.created_at,
    }
}

/// The message of a failed removal.
pub open spec fn msg_not_removed(a: Seq<char>) -> Seq<char> {
    "Error: No record for '"@ + a + "' found"@
}

/// What removing the alias `a` from `rs` gives: the records under other
/// aliases, or an error when no record had the alias.
pub open spec fn spec_remove(rs: Seq<RecordView>, a: Seq<char>) -> Result<
    Seq<RecordView>,
    Seq<char>,
> {
    if without_alias(rs, a).len() == rs.len() {
        Err(msg_not_removed(a))
    } else {
        Ok(without_alias(rs, a))
    }
}

/// The codex as read: its records, or the message of the read error.
pub open spec fn codex_view(codex: Result<Vec<Record>, String>) -> Result<
    Seq<RecordView>,
    Seq<char>,
> {
    match codex {
        Ok(rs) => Ok(views(rs@)),
        Err(e) => Err(e@),
    }
}

/// The alias `a` is taken in the codex (an unreadable codex takes none).
pub open spec fn codex_has_alias(codex: Result<Seq<RecordView>, Seq<char>>, a: Seq<char>) -> bool {
    match codex {
        Ok(rs) => has_alias(rs, a),
        Err(_) => false,
    }
}

/// What renaming `old` to `new` in the codex gives: the checks in their order
/// (a `:` in the new alias, the new alias taken, the codex unreadable, the old
/// alias missing), then the records with the first record of alias `old`
/// renamed.
pub open spec fn spec_rename(
    codex: Result<Seq<RecordView>, Seq<char>>,
    old: Seq<char>,
    new: Seq<char>,
) -> Result<Seq<RecordView>, Seq<char>> {
    if new.contains(':') {
        Err("The new alias cannot contain ':'"@)
    } else if codex_has_alias(codex, new) {
        Err("Alias '"@ + new + "' already exists."@)
    } else {
        match codex {
            Err(e) => Err(e),
            Ok(rs) => if !has_alias(rs, old) {
                Err("Alias '"@ + old + "' not found."@)
            } else {
                let i = first_with_alias(rs, old);
                Ok(rs.update(i, with_alias(rs[i], new)))
            },
        }
    }
}

// ---------------------------------------------------------------------------
// Lemmas
// ---------------------------------------------------------------------------

/// There is at most one first position of an alias.
pub proof fn lemma_first_with_alias_unique(rs: Seq<RecordView>, a: Seq<char>, i: int)
    requires
        is_first_with_alias(rs, a, i),
    ensures
        first_with_alias(rs, a) == i,
{
    let k = first_with_alias(rs, a);
    assert(is_first_with_alias(rs, a, k));
    if k < i {
        assert(rs[k].alias != a);
    } else if i < k {
        assert(rs[i].alias != a);
    }
}

/// A taken alias has a first position.
pub proof fn lemma_first_with_alias_exists(rs: Seq<RecordView>, a: Seq<char>)
    requires
        has_alias(rs, a),
    ensures
        is_first_with_alias(rs, a, first_with_alias(rs, a)),
    decreases rs.len(),
{
    if rs.last().alias == a && !has_alias(rs.drop_last(), a) {
        let i = rs.len() - 1;
        assert forall|j: int| 0 <= j < i implies #[trigger] rs[j].alias != a by {
            assert(rs.drop_last()[j] == rs[j]);
        }
        assert(is_first_with_alias(rs, a, i));
    } else if has_alias(rs.drop_last(), a) {
        lemma_first_with_alias_exists(rs.drop_last(), a);
        let i = first_with_alias(rs.drop_last(), a);
        assert forall|j: int| 0 <= j < i implies #[trigger] rs[j].alias != a by {
            assert(rs.drop_last()[j] == rs[j]);
        }
        assert(is_first_with_alias(rs, a, i));
    } else {
        let w = choose|w: int| 0 <= w < rs.len() && #[trigger] rs[w].alias == a;
        assert(rs.drop_last()[w] == rs[w]);
    }
}

/// What `without_alias` keeps: no record of alias `a`, every record of
/// another alias, and nothing that was not in `rs`.
pub proof fn lemma_without_alias_members(rs: Seq<RecordView>, a: Seq<char>)
    ensures
        !has_alias(without_alias(rs, a), a),
        without_alias(rs, a).len() <= rs.len(),
        without_alias(rs, a).len() == rs.len() <==> !has_alias(rs, a),
        forall|k: int|
            0 <= k < without_alias(rs, a).len() ==> exists|i: int|
                0 <= i < rs.len() && #[trigger] without_alias(rs, a)[k] == rs[i],
    decreases rs.len(),
{
    if rs.len() > 0 {
        let p = rs.drop_last();
        lemma_without_alias_members(p, a);
        let w = without_alias(rs, a);
        let wp = without_alias(p, a);
        if rs.last().alias == a {
            assert(has_alias(rs, a));
        } else {
            assert forall|k: int| 0 <= k < w.len() implies exists|i: int|
                0 <= i < rs.len() && #[trigger] w[k] == rs[i] by {
                if k < wp.len() {
                    let i = choose|i: int| 0 <= i < p.len() && #[trigger] wp[k] == p[i];
                    assert(w[k] == rs[i]);
                } else {
                    assert(w[k] == rs[rs.len() - 1]);
                }
            }
            if has_alias(w, a) {
                let k = choose|k: int| 0 <= k < w.len() && #[trigger] w[k].alias == a;
                if k < wp.len() {
                    assert(wp[k] == w[k]);
                }
            }
            if has_alias(rs, a) {
                let i = choose|i: int| 0 <= i < rs.len() && #[trigger] rs[i].alias == a;
                assert(p[i] == rs[i]);
            }
        }
    }
}

/// Removing records keeps aliases unique.
pub proof fn lemma_without_alias_unique(rs: Seq<RecordView>, a: Seq<char>)
    requires
        aliases_unique(rs),
    ensures
        aliases_unique(without_alias(rs, a)),
    decreases rs.len(),
{
    if rs.len() > 0 {
        let p = rs.drop_last();
        assert(aliases_unique(p)) by {
            assert forall|i: int, j: int|
                0 <= i < p.len() && 0 <= j < p.len() && i != j implies #[trigger] p[i].alias
                != #[trigger] p[j].alias by {
                assert(p[i] == rs[i] && p[j] == rs[j]);
            }
        }
        lemma_without_alias_unique(p, a);
        lemma_without_alias_members(p, a);
        let w = without_alias(rs, a);
        let wp = without_alias(p, a);
        if rs.last().alias != a {
            assert forall|i: int, j: int|
                0 <= i < w.len() && 0 <= j < w.len() && i != j implies #[trigger] w[i].alias
                != #[trigger] w[j].alias by {
                if i < wp.len() && j < wp.len() {
                    assert(w[i] == wp[i] && w[j] == wp[j]);
                } else if i < wp.len() {
                    let k = choose|k: int| 0 <= k < p.len() && #[trigger] wp[i] == p[k];
                    assert(p[k] == rs[k]);
                    assert(rs[k].alias != rs[rs.len() - 1].alias);
                } else if j < wp.len() {
                    let k = choose|k: int| 0 <= k < p.len() && #[trigger] wp[j] == p[k];
                    assert(p[k] == rs[k]);
                    assert(rs[k].alias != rs[rs.len() - 1].alias);
                }
            }
        }
    }
}

// ---------------------------------------------------------------------------
// Executable codex operations
// ---------------------------------------------------------------------------

/// Whether the codex text is in the JSON format: `Err` when, after leading
/// whitespace, the text does not open with `{` and is not blank.
pub fn check_codex_text(content: &str) -> (r: Result<(), String>)
    ensures
        r is Err <==> !codex_text_accepted(content@),
        r matches Err(e) ==> e@ == "Invalid codex format: expected JSON."@,
{
    let v = chars_of(content);
    let start = trim_start_chars(&v);
    let opens_json = start.len() > 0 && start[0] == '{';
    proof {
        lemma_trim_start_suffix(v@);
        lemma_trim_end_prefix(trim_start(v@));
        if trim_start(v@).len() > 0 {
            assert(!is_whitespace(trim_start(v@)[0]));
            if trim(v@).len() == 0 {
                assert(trim_end(trim_start(v@)) =~= trim_start(v@).take(0));
                lemma_trim_end_nonempty(trim_start(v@));
            }
        }
    }
    if !opens_json && start.len() > 0 {
        return Err("Invalid codex format: expected JSON.".to_owned());
    }
    Ok(())
}

/// `trim_end` keeps a sequence that opens with a non-whitespace character non-empty.
pub proof fn lemma_trim_end_nonempty(s: Seq<char>)
    requires
        s.len() > 0,
        !is_whitespace(s[0]),
    ensures
        trim_end(s).len() > 0,
    decreases s.len(),
{
    if is_whitespace(s.last()) {
        assert(s.len() > 1);
        lemma_trim_end_nonempty(s.drop_last());
    }
}

/// Whether the alias is taken in the codex as read; an unreadable codex takes
/// no alias.
pub fn alias_exists(alias: &str, codex: &Result<Vec<Record>, String>) -> (b: bool)
    ensures
        b == codex_has_alias(codex_view(*codex), alias@),
{
    match codex {
        Err(_) => false,
        Ok(records) => {
            let target = alias.to_owned();
            let mut i: usize = 0;
            while i < records.len()
                invariant
                    i <= records.len(),
                    target@ == alias@,
                    *codex == Ok::<Vec<Record>, String>(*records),
                    forall|j: int| 0 <= j < i ==> records@[j].alias@ != alias@,
                decreases records.len() - i,
            {
                if records[i].alias == target {
                    assert(codex_view(*codex) == Ok::<Seq<RecordView>, Seq<char>>(views(records@)));
                    assert(views(records@)[i as int] == records@[i as int]@);
                    assert(views(records@)[i as int].alias == alias@);
                    return true;
                }
                i = i + 1;
            }
            assert forall|j: int| 0 <= j < views(records@).len() implies #[trigger] views(
                records@,
            )[j].alias != alias@ by {
                assert(views(records@)[j] == records@[j]@);
            }
            assert(codex_view(*codex) == Ok::<Seq<RecordView>, Seq<char>>(views(records@)));
            false
        },
    }
}

/// Removes every record of alias `alias`; an error when there is none.
pub fn remove_alias(records: &Vec<Record>, alias: &str) -> (r: Result<Vec<Record>, String>)
    ensures
        match r {
            Ok(v) => spec_remove(views(records@), alias@) == Ok::<Seq<RecordView>, Seq<char>>(
                views(v@),
            ),
            Err(e) => spec_remove(views(records@), alias@) == Err::<Seq<RecordView>, Seq<char>>(
                e@,
            ),
        },
{
    let target = alias.to_owned();
    let mut kept: Vec<Record> = Vec::new();
    let mut i: usize = 0;
    let ghost all = views(records@);
    assert(all.take(0) =~= Seq::<RecordView>::empty());
    assert(views(kept@) =~= Seq::<RecordView>::empty());
    while i < records.len()
        invariant
            i <= records.len(),
            target@ == alias@,
            all == views(records@),
            views(kept@) == without_alias(all.take(i as int), alias@),
        decreases records.len() - i,
    {
        assert(all.take(i + 1).drop_last() =~= all.take(i as int));
        assert(all.take(i + 1).last() == records@[i as int]@);
        if records[i].alias != target {
            let copy = records[i].duplicate();
            kept.push(copy);
            assert(views(kept@) =~= without_alias(all.take(i as int), alias@).push(
                records@[i as int]@,
            ));
        }
        i = i + 1;
    }
    assert(all.take(records.len() as int) =~= all);
    if kept.len() == records.len() {
        return Err(join3("Error: No record for '", alias, "' found"));
    }
    Ok(kept)
}

/// Renames the first record of alias `old_alias` to `new_alias`, after the
/// checks that `spec_rename` lists.
pub fn rename_alias(codex: &Result<Vec<Record>, String>, old_alias: &str, new_alias: &str) -> (r:
    Result<Vec<Record>, String>)
    ensures
        match r {
            Ok(v) => spec_rename(codex_view(*codex), old_alias@, new_alias@) == Ok::<
                Seq<RecordView>,
                Seq<char>,
            >(views(v@)),
            Err(e) => spec_rename(codex_view(*codex), old_alias@, new_alias@) == Err::<
                Seq<RecordView>,
                Seq<char>,
            >(e@),
        },
{
    let new_chars = chars_of(new_alias);
    if has_char(&new_chars, ':') {
        return Err("The new alias cannot contain ':'".to_owned());
    }
    if alias_exists(new_alias, codex) {
        return Err(join3("Alias '", new_alias, "' already exists."));
    }
    let records = match codex {
        Err(e) => {
            return Err(e.clone());
        },
        Ok(rs) => rs,
    };
    let ghost all = views(records@);
    let target = old_alias.to_owned();
    let mut out: Vec<Record> = Vec::new();
    let mut found: bool = false;
    let ghost mut at: int = -1;
    let mut i: usize = 0;
    while i < records.len()
        invariant
            i <= records.len(),
            target@ == old_alias@,
            all == views(records@),
            *codex == Ok::<Vec<Record>, String>(*records),
            out@.len() == i,
            !found ==> forall|j: int| 0 <= j < i ==> #[trigger] records@[j].alias@ != old_alias@,
            !found ==> forall|j: int| 0 <= j < i ==> #[trigger] out@[j]@ == records@[j]@,
            found ==> is_first_with_alias(all, old_alias@, at),
            found ==> at < i,
            found ==> forall|j: int|
                0 <= j < i ==> #[trigger] out@[j]@ == (if j == at {
                    with_alias(records@[j]@, new_alias@)
                } else {
                    records@[j]@
                }),
        decreases records.len() - i,
    {
        assert(all[i as int] == records@[i as int]@);
        if !found && records[i].alias == target {
            let mut copy = records[i].duplicate();
            copy.alias = new_alias.to_owned();
            out.push(copy);
            found = true;
            proof {
                at = i as int;
                assert forall|j: int| 0 <= j < i implies #[trigger] all[j].alias != old_alias@ by {
                    assert(all[j] == records@[j]@);
                }
            }
        } else {
            out.push(records[i].duplicate());
        }
        i = i + 1;
    }
    if !found {
        assert forall|j: int| 0 <= j < all.len() implies #[trigger] all[j].alias != old_alias@ by {
            assert(all[j] == records@[j]@);
        }
        return Err(join3("Alias '", old_alias, "' not found."));
    }
    proof {
        lemma_first_with_alias_unique(all, old_alias@, at);
        assert(views(out@) =~= all.update(at, with_alias(all[at], new_alias@)));
    }
    Ok(out)
}

/// The text written to the codex file for `data`: `data` without surrounding
/// whitespace, then a newline.
pub fn codex_text(data: &str) -> (s: String)
    ensures
        s@ == trim(data@).push('\n'),
{
    let v = chars_of(data);
    let mut t = trim_chars(&v);
    t.push('\n');
    string_of(&t)
}

/// The lines of `parts`, each followed by a newline.
pub open spec fn lines_text(parts: Seq<Seq<char>>) -> Seq<char>
    decreases parts.len(),
{
    if parts.len() == 0 {
        Seq::empty()
    } else {
        lines_text(parts.drop_last()) + parts.last().push('\n')
    }
}

/// The text of a codex holding `lines`: the lines joined by newlines, with a
/// final newline (a lone newline for no lines).
pub open spec fn spec_join_lines(lines: Seq<Seq<char>>) -> Seq<char> {
    if lines.len() == 0 {
        seq!['\n']
    } else {
        lines_text(lines)
    }
}

/// `lines` joined by newlines, followed by a newline.
pub fn join_lines(lines: &Vec<String>) -> (s: String)
    ensures
        s@ == spec_join_lines(lines@.map_values(|l: String| l@)),
{
    let ghost parts = lines@.map_values(|l: String| l@);
    let mut v: Vec<char> = Vec::new();
    let mut i: usize = 0;
    assert(parts.take(0) =~= Seq::<Seq<char>>::empty());
    while i < lines.len()
        invariant
            i <= lines.len(),
            parts == lines@.map_values(|l: String| l@),
            v@ == lines_text(parts.take(i as int)),
        decreases lines.len() - i,
    {
        extend_chars(&mut v, lines[i].as_str());
        v.push('\n');
        assert(parts.take(i + 1).drop_last() =~= parts.take(i as int));
        assert(parts.take(i + 1).last() == lines@[i as int]@);
        i = i + 1;
    }
    assert(parts.take(lines.len() as int) =~= parts);
    if lines.len() == 0 {
        v.push('\n');
        assert(v@ =~= seq!['\n']);
    }
    string_of(&v)
}

// ---------------------------------------------------------------------------
// Laws of the codex
// ---------------------------------------------------------------------------

/// The alias `a` is held by at most one record of `rs`.
pub open spec fn alias_at_most_once(rs: Seq<RecordView>, a: Seq<char>) -> bool {
    forall|i: int, j: int|
        0 <= i < rs.len() && 0 <= j < rs.len() && #[trigger] rs[i].alias == a
            && #[trigger] rs[j].alias == a ==> i == j
}

/// Removing an alias fails exactly when no record holds it; when it
/// succeeds, no record of the alias is left, every record of another alias
/// stays, and aliases that were unique stay unique.
pub proof fn lemma_remove_law(rs: Seq<RecordView>, a: Seq<char>)
    ensures
        spec_remove(rs, a) is Err <==> !has_alias(rs, a),
        spec_remove(rs, a) matches Ok(w) ==> {
            &&& !has_alias(w, a)
            &&& w.len() < rs.len()
            &&& w == without_alias(rs, a)
            &&& (aliases_unique(rs) ==> aliases_unique(w))
        },
{
    lemma_without_alias_members(rs, a);
    if aliases_unique(rs) {
        lemma_without_alias_unique(rs, a);
    }
}

/// A successful renaming keeps the number of records, leaves the new alias
/// taken and, when the old alias was held once, gone; it keeps aliases
/// unique.
pub proof fn lemma_rename_law(rs: Seq<RecordView>, old: Seq<char>, new: Seq<char>)
    requires
        spec_rename(Ok(rs), old, new) is Ok,
    ensures
        ({
            let w = spec_rename(Ok(rs), old, new)->Ok_0;
            &&& w.len() == rs.len()
            &&& has_alias(w, new)
            &&& alias_at_most_once(rs, old) ==> !has_alias(w, old)
            &&& aliases_unique(rs) ==> aliases_unique(w)
        }),
{
    lemma_first_with_alias_exists(rs, old);
    let i = first_with_alias(rs, old);
    let w = rs.update(i, with_alias(rs[i], new));
    assert(w[i].alias == new);
    if alias_at_most_once(rs, old) {
        if has_alias(w, old) {
            let j = choose|j: int| 0 <= j < w.len() && #[trigger] w[j].alias == old;
            assert(j != i);
            assert(rs[j].alias == old);
        }
    }
    if aliases_unique(rs) {
        assert forall|p: int, q: int|
            0 <= p < w.len() && 0 <= q < w.len() && p != q implies #[trigger] w[p].alias
            != #[trigger] w[q].alias by {
            if p == i {
                assert(rs[q].alias != new);
            } else if q == i {
                assert(rs[p].alias != new);
            } else {
                assert(rs[p].alias != rs[q].alias);
            }
        }
    }
}

/// Renaming an alias held once and then renaming it back gives the records
/// that there were before.
pub proof fn lemma_rename_roundtrip(rs: Seq<RecordView>, old: Seq<char>, new: Seq<char>)
    requires
        spec_rename(Ok(rs), old, new) is Ok,
        alias_at_most_once(rs, old),
        !old.contains(':'),
    ensures
        spec_rename(Ok(spec_rename(Ok(rs), old, new)->Ok_0), new, old) == Ok::<
            Seq<RecordView>,
            Seq<char>,
        >(rs),
{
    lemma_rename_law(rs, old, new);
    lemma_first_with_alias_exists(rs, old);
    let i = first_with_alias(rs, old);
    let w = rs.update(i, with_alias(rs[i], new));
    assert(is_first_with_alias(w, new, i)) by {
        assert forall|j: int| 0 <= j < i implies #[trigger] w[j].alias != new by {
            assert(w[j] == rs[j]);
        }
    }
    assert(has_alias(w, new));
    lemma_first_with_alias_unique(w, new, i);
    assert(w.update(i, with_alias(w[i], old)) =~= rs);
}

/// Adding a record under an alias that the checks before adding accepted
/// keeps aliases unique.
pub proof fn lemma_add_keeps_aliases_unique(
    rs: Seq<RecordView>,
    alias: Seq<char>,
    code: Seq<char>,
    r: RecordView,
)
    requires
        aliases_unique(rs),
        crate::cmd::spec_validate_add(alias, code, Ok(rs)) is Ok,
        r.alias == alias,
    ensures
        aliases_unique(rs.push(r)),
{
    let w = rs.push(r);
    assert forall|p: int, q: int|
        0 <= p < w.len() && 0 <= q < w.len() && p != q implies #[trigger] w[p].alias
        != #[trigger] w[q].alias by {
        if p == rs.len() {
            assert(w[q] == rs[q]);
        } else if q == rs.len() {
            assert(w[p] == rs[p]);
        } else {
            assert(w[p] == rs[p] && w[q] == rs[q]);
        }
    }
}

/// Rewriting the codex file with its own text leaves the text unchanged.
pub proof fn lemma_codex_text_stable(data: Seq<char>)
    ensures
        trim(trim(data).push('\n')).push('\n') == trim(data).push('\n'),
{
    let t = trim(data);
    lemma_trim_start_suffix(data);
    lemma_trim_end_prefix(trim_start(data));
    if t.len() > 0 {
        assert(t[0] == trim_start(data)[0]);
        assert(!is_whitespace(t[0]));
        assert(!is_whitespace(t.last()));
        assert(t.push('\n')[0] == t[0]);
        assert(trim_start(t.push('\n')) == t.push('\n'));
        assert(t.push('\n').drop_last() =~= t);
        assert(is_whitespace('\n'));
        assert(trim_end(t.push('\n')) == trim_end(t));
        assert(trim_end(t) == t);
    } else {
        let n = seq!['\n'];
        assert(t.push('\n') =~= n);
        assert(n.drop_first() =~= Seq::<char>::empty());
        assert(trim_start(n) == trim_start(Seq::<char>::empty()));
    }
}

/// The text of lines whose first line opens a JSON object starts with that
/// object's `{`.
pub proof fn lemma_lines_text_first(lines: Seq<Seq<char>>)
    requires
        lines.len() > 0,
        lines[0].len() > 0,
    ensures
        lines_text(lines).len() > 0,
        lines_text(lines)[0] == lines[0][0],
    decreases lines.len(),
{
    let p = lines.drop_last();
    if lines.len() > 1 {
        assert(p[0] == lines[0]);
        lemma_lines_text_first(p);
        let a = lines_text(p);
        let b = lines.last().push('\n');
        assert((a + b)[0] == a[0]);
    } else {
        assert(p =~= Seq::<Seq<char>>::empty());
        assert(lines_text(p) =~= Seq::<char>::empty());
        let b = lines.last().push('\n');
        assert(lines_text(lines) =~= b);
        assert(lines.last() == lines[0]);
    }
}

/// The format check whose verdict `check_codex_text` returns: whether the
/// text, after leading whitespace, opens with `{` or is blank.
pub open spec fn codex_text_accepted(content: Seq<char>) -> bool {
    !(!(trim_start(content).len() > 0 && trim_start(content)[0] == '{') && trim(content).len() > 0)
}

/// What the library writes back to the codex file passes its own format
/// check, when the first record line opens a JSON object.
pub proof fn lemma_written_codex_accepted(lines: Seq<Seq<char>>)
    requires
        lines.len() == 0 || (lines[0].len() > 0 && lines[0][0] == '{'),
    ensures
        codex_text_accepted(trim(spec_join_lines(lines)).push('\n')),
{
    let data = spec_join_lines(lines);
    let t = trim(data).push('\n');
    if lines.len() == 0 {
        let n = seq!['\n'];
        assert(n.drop_first() =~= Seq::<char>::empty());
        assert(trim_start(n) == trim_start(Seq::<char>::empty()));
        assert(trim(data) =~= Seq::<char>::empty());
        assert(t =~= n);
        assert(trim_start(t).len() == 0);
        assert(trim(t).len() == 0);
    } else {
        lemma_lines_text_first(lines);
        assert(!is_whitespace(data[0]));
        assert(trim_start(data) == data);
        lemma_trim_end_nonempty(data);
        lemma_trim_end_prefix(data);
        assert(trim(data)[0] == '{');
        assert(t[0] == '{');
        assert(trim_start(t) == t);
    }
}

/// Removing the alias of a record just added under a free alias gives back
/// the records that there were before.
pub proof fn lemma_remove_undoes_add(rs: Seq<RecordView>, r: RecordView)
    requires
        !has_alias(rs, r.alias),
    ensures
        spec_remove(rs.push(r), r.alias) == Ok::<Seq<RecordView>, Seq<char>>(rs),
{
    let w = rs.push(r);
    assert(w.drop_last() =~= rs);
    lemma_without_alias_free(rs, r.alias);
}

/// Removing an alias that no record holds keeps every record.
pub proof fn lemma_without_alias_free(rs: Seq<RecordView>, a: Seq<char>)
    requires
        !has_alias(rs, a),
    ensures
        without_alias(rs, a) == rs,
    decreases rs.len(),
{
    if rs.len() > 0 {
        let p = rs.drop_last();
        assert(rs[rs.len() - 1].alias != a);
        assert(!has_alias(p, a)) by {
            if has_alias(p, a) {
                let i = choose|i: int| 0 <= i < p.len() && #[trigger] p[i].alias == a;
                assert(rs[i] == p[i]);
            }
        }
        lemma_without_alias_free(p, a);
        assert(p.push(rs.last()) =~= rs);
    }
}

/// `without_alias` keeps, in order, the records whose alias is not `a`.
pub proof fn lemma_without_alias_is_filter(rs: Seq<RecordView>, a: Seq<char>)
    ensures
        without_alias(rs, a) == rs.filter(|r: RecordView| r.alias != a),
    decreases rs.len(),
{
    reveal(Seq::filter);
    if rs.len() > 0 {
        lemma_without_alias_is_filter(rs.drop_last(), a);
    }
}

/// Removal, stated over the records: it fails exactly when no record has the
/// alias `a`; otherwise it gives the records whose alias differs from `a`,
/// in their order, every one of them, and fewer records than before.
pub proof fn lemma_remove_keeps_other_aliases(rs: Seq<RecordView>, a: Seq<char>)
    ensures
        spec_remove(rs, a) is Err <==> (forall|i: int| 0 <= i < rs.len() ==> #[trigger] rs[i].alias != a),
        spec_remove(rs, a) matches Ok(w) ==> {
            &&& w == rs.filter(|r: RecordView| r.alias != a)
            &&& w.len() < rs.len()
            &&& forall|k: int| 0 <= k < w.len() ==> #[trigger] w[k].alias != a
            &&& forall|i: int| 0 <= i < rs.len() && #[trigger] rs[i].alias != a ==> w.contains(rs[i])
        },
{
    broadcast use vstd::seq_lib::group_filter_ensures;

    lemma_without_alias_members(rs, a);
    lemma_without_alias_is_filter(rs, a);
    let pred = |r: RecordView| r.alias != a;
    if spec_remove(rs, a) is Ok {
        let w = rs.filter(pred);
        assert forall|k: int| 0 <= k < w.len() implies #[trigger] w[k].alias != a by {
            assert(pred(w[k]));
        }
        assert forall|i: int| 0 <= i < rs.len() && #[trigger] rs[i].alias != a implies w.contains(
            rs[i],
        ) by {
            assert(pred(rs[i]));
        }
    }
    if (forall|i: int| 0 <= i < rs.len() ==> #[trigger] rs[i].alias != a) {
        assert(!has_alias(rs, a));
    }
}

/// Renaming, stated over the records: the first record of alias `old` gets
/// the alias `new` and keeps its secret, encryption flag, algorithm, digits,
/// period and creation time; every other record stays as it was.
pub proof fn lemma_rename_changes_only_alias(rs: Seq<RecordView>, old: Seq<char>, new: Seq<char>)
    requires
        spec_rename(Ok(rs), old, new) is Ok,
    ensures
        ({
            let w = spec_rename(Ok(rs), old, new)->Ok_0;
            &&& w.len() == rs.len()
            &&& exists|i: int|
                0 <= i < rs.len() && rs[i].alias == old && (forall|j: int|
                    0 <= j < i ==> #[trigger] rs[j].alias != old) && w[i].alias == new
                    && w[i].secret == rs[i].secret && w[i].is_unencrypted == rs[i].is_unencrypted
                    && w[i].algorithm == rs[i].algorithm && w[i].digits == rs[i].digits
                    && w[i].period == rs[i].period && w[i].created_at == rs[i].created_at && (
                forall|j: int| 0 <= j < rs.len() && j != i ==> #[trigger] w[j] == rs[j])
        }),
{
    lemma_first_with_alias_exists(rs, old);
    let i = first_with_alias(rs, old);
    let w = rs.update(i, with_alias(rs[i], new));
    assert(w[i].alias == new);
    assert(forall|j: int| 0 <= j < rs.len() && j != i ==> #[trigger] w[j] == rs[j]);
}

} // verus!
