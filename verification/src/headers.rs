//! A header map with case-insensitive names, modelled as a map from the
//! lowercased name to the value.

use vstd::prelude::*;

verus! {

/// ASCII-lowercases one character; everything outside 'A'..'Z' is unchanged.
pub open spec fn lower_char(c: char) -> char {
    if 65 <= c as u32 && c as u32 <= 90 {
        (((c as u32) + 32) as u8) as char
    } else {
        c
    }
}

/// ASCII-lowercases a sequence of characters.
pub open spec fn lower_chars(s: Seq<char>) -> Seq<char> {
    Seq::new(s.len(), |i: int| lower_char(s[i]))
}

pub(crate) fn lower_char_exec(c: char) -> (r: char)
    ensures
        r == lower_char(c),
{
    let n: u32 = c as u32;
    if 65 <= n && n <= 90 {
        ((n + 32) as u8) as char
    } else {
        c
    }
}

/// Whether the two character sequences are equal up to ASCII case.
pub open spec fn eq_ci(a: Seq<char>, b: Seq<char>) -> bool {
    lower_chars(a) == lower_chars(b)
}

fn str_eq_ci(a: &str, b: &str) -> (r: bool)
    ensures
        r == eq_ci(a@, b@),
{
    let an = a.unicode_len();
    let bn = b.unicode_len();
    if an != bn {
        assert(lower_chars(a@).len() != lower_chars(b@).len());
        return false;
    }
    let mut i: usize = 0;
    while i < an
        invariant
            an == a@.len() && an == b@.len(),
            i <= an,
            forall|j: int| 0 <= j < i ==> lower_char(a@[j]) == lower_char(b@[j]),
        decreases an - i,
    {
        let ca = lower_char_exec(a.get_char(i));
        let cb = lower_char_exec(b.get_char(i));
        if ca != cb {
            assert(lower_chars(a@)[i as int] != lower_chars(b@)[i as int]);
            return false;
        }
        i += 1;
    }
    assert(lower_chars(a@) =~= lower_chars(b@));
    true
}

/// One stored header: the name as given, and the value.
#[derive(Debug)]
pub struct RhodHeaderField {
    name: String,
    value: String,
}

impl RhodHeaderField {
    pub closed spec fn spec_name(&self) -> Seq<char> {
        self.name@
    }

    pub closed spec fn spec_value(&self) -> Seq<char> {
        self.value@
    }

    pub fn name(&self) -> (r: &String)
        ensures
            r@ == self.spec_name(),
    {
        &self.name
    }

    pub fn value(&self) -> (r: &String)
        ensures
            r@ == self.spec_value(),
    {
        &self.value
    }
}

/// Header names and values, with at most one value per name; a name denotes
/// the same header whatever its ASCII case. The view maps each lowercased
/// name to its value.
#[derive(Debug)]
pub struct RhodHeaderMap {
    entries: Vec<RhodHeaderField>,
}

/// The map denoted by a list of header fields; a later field with the same
/// lowercased name wins.
pub open spec fn map_of(entries: Seq<RhodHeaderField>) -> Map<Seq<char>, Seq<char>>
    decreases entries.len(),
{
    if entries.len() == 0 {
        Map::empty()
    } else {
        map_of(entries.drop_last()).insert(
            lower_chars(entries.last().spec_name()),
            entries.last().spec_value(),
        )
    }
}

/// The stored fields carry pairwise distinct lowercased names.
pub open spec fn distinct_names(entries: Seq<RhodHeaderField>) -> bool {
    forall|i: int, j: int|
        0 <= i < j < entries.len() ==> lower_chars(entries[i].spec_name()) != lower_chars(
            entries[j].spec_name(),
        )
}

proof fn lemma_map_of_contains(entries: Seq<RhodHeaderField>, k: Seq<char>)
    ensures
        map_of(entries).contains_key(k) <==> exists|j: int|
            0 <= j < entries.len() && lower_chars(entries[j].spec_name()) == k,
    decreases entries.len(),
{
    if entries.len() > 0 {
        lemma_map_of_contains(entries.drop_last(), k);
        if map_of(entries).contains_key(k) {
            if lower_chars(entries.last().spec_name()) == k {
                assert(lower_chars(entries[entries.len() - 1].spec_name()) == k);
            } else {
                let j = choose|j: int|
                    0 <= j < entries.drop_last().len() && lower_chars(
                        entries.drop_last()[j].spec_name(),
                    ) == k;
                assert(lower_chars(entries[j].spec_name()) == k);
            }
        }
        if exists|j: int| 0 <= j < entries.len() && lower_chars(entries[j].spec_name()) == k {
            let j = choose|j: int|
                0 <= j < entries.len() && lower_chars(entries[j].spec_name()) == k;
            if j < entries.len() - 1 {
                assert(lower_chars(entries.drop_last()[j].spec_name()) == k);
            }
        }
    }
}

proof fn lemma_map_of_value(entries: Seq<RhodHeaderField>, j: int)
    requires
        distinct_names(entries),
        0 <= j < entries.len(),
    ensures
        map_of(entries).contains_key(lower_chars(entries[j].spec_name())),
        map_of(entries)[lower_chars(entries[j].spec_name())] == entries[j].spec_value(),
    decreases entries.len(),
{
    if j == entries.len() - 1 {
    } else {
        lemma_map_of_value(entries.drop_last(), j);
        assert(entries.drop_last()[j] == entries[j]);
    }
}

impl View for RhodHeaderMap {
    type V = Map<Seq<char>, Seq<char>>;

    closed spec fn view(&self) -> Map<Seq<char>, Seq<char>> {
        map_of(self.entries@)
    }
}

impl RhodHeaderMap {
    /// The representation keeps one field per lowercased name.
    pub closed spec fn wf(&self) -> bool {
        distinct_names(self.entries@)
    }

    /// The stored fields, in insertion order, names as given.
    pub closed spec fn spec_fields(&self) -> Seq<RhodHeaderField> {
        self.entries@
    }

    pub fn new() -> (m: RhodHeaderMap)
        ensures
            m.wf(),
            m@ == Map::<Seq<char>, Seq<char>>::empty(),
            m.spec_fields() == Seq::<RhodHeaderField>::empty(),
    {
        RhodHeaderMap { entries: Vec::new() }
    }

    /// The stored fields, for callers that walk all headers.
    pub fn fields(&self) -> (r: &Vec<RhodHeaderField>)
        ensures
            r@ == self.spec_fields(),
            map_of(r@) == self@,
    {
        &self.entries
    }

    /// Looks a name up, ignoring its ASCII case.
    pub fn get(&self, name: &str) -> (r: Option<&String>)
        requires
            self.wf(),
        ensures
            match r {
                Some(v) => self@.contains_key(lower_chars(name@)) && v@ == self@[lower_chars(
                    name@,
                )],
                None => !self@.contains_key(lower_chars(name@)),
            },
    {
        let n = self.entries.len();
        let mut i: usize = 0;
        while i < n
            invariant
                self.wf(),
                n == self.entries@.len(),
                i <= n,
                forall|j: int| 0 <= j < i ==> lower_chars(self.entries@[j].spec_name())
                    != lower_chars(name@),
            decreases n - i,
        {
            if str_eq_ci(self.entries[i].name().as_str(), name) {
                proof {
                    lemma_map_of_value(self.entries@, i as int);
                }
                return Some(&self.entries[i].value);
            }
            i += 1;
        }
        proof {
            lemma_map_of_contains(self.entries@, lower_chars(name@));
        }
        None
    }

    /// Inserts a value for a name; an existing value under the same name,
    /// compared without regard to ASCII case, is replaced.
    pub fn insert(&mut self, name: &str, value: &str)
        requires
            old(self).wf(),
        ensures
            final(self).wf(),
            final(self)@ == old(self)@.insert(lower_chars(name@), value@),
            final(self).spec_fields().len() == old(self).spec_fields().len() + (
            if old(self)@.contains_key(lower_chars(name@)) {
                0int
            } else {
                1int
            }),
            forall|j: int|
                0 <= j < old(self).spec_fields().len() && lower_chars(
                    (#[trigger] old(self).spec_fields()[j]).spec_name(),
                ) != lower_chars(name@) ==> final(self).spec_fields()[j] == old(
                    self,
                ).spec_fields()[j],
            forall|j: int|
                0 <= j < final(self).spec_fields().len() && lower_chars(
                    (#[trigger] final(self).spec_fields()[j]).spec_name(),
                ) == lower_chars(name@) ==> final(self).spec_fields()[j].spec_name() == name@
                    && final(self).spec_fields()[j].spec_value() == value@,
    {
        let field = RhodHeaderField { name: name.to_owned(), value: value.to_owned() };
        let n = self.entries.len();
        let mut i: usize = 0;
        while i < n
            invariant
                self.wf(),
                self.entries@ == old(self).entries@,
                n == self.entries@.len(),
                i <= n,
                field.spec_name() == name@,
                field.spec_value() == value@,
                forall|j: int| 0 <= j < i ==> lower_chars(self.entries@[j].spec_name())
                    != lower_chars(name@),
            decreases n - i,
        {
            if str_eq_ci(self.entries[i].name().as_str(), name) {
                proof {
                    lemma_map_of_value(self.entries@, i as int);
                    lemma_map_of_update(self.entries@, i as int, field);
                }
                self.entries[i] = field;
                return ;
            }
            i += 1;
        }
        proof {
            lemma_map_of_contains(self.entries@, lower_chars(name@));
            assert(self.entries@.push(field).drop_last() =~= self.entries@);
        }
        self.entries.push(field);
    }
}

proof fn lemma_map_of_agrees(e1: Seq<RhodHeaderField>, e2: Seq<RhodHeaderField>)
    requires
        e1.len() == e2.len(),
        forall|j: int| 0 <= j < e1.len() ==> e1[j] == e2[j],
    ensures
        map_of(e1) == map_of(e2),
    decreases e1.len(),
{
    if e1.len() > 0 {
        lemma_map_of_agrees(e1.drop_last(), e2.drop_last());
        assert(e1.last() == e2[e1.len() - 1]);
    }
}

proof fn lemma_map_of_update(entries: Seq<RhodHeaderField>, i: int, field: RhodHeaderField)
    requires
        distinct_names(entries),
        0 <= i < entries.len(),
        lower_chars(entries[i].spec_name()) == lower_chars(field.spec_name()),
    ensures
        distinct_names(entries.update(i, field)),
        map_of(entries.update(i, field)) == map_of(entries).insert(
            lower_chars(field.spec_name()),
            field.spec_value(),
        ),
    decreases entries.len(),
{
    let upd = entries.update(i, field);
    let k = lower_chars(field.spec_name());
    assert forall|a: int, b: int| 0 <= a < b < upd.len() implies lower_chars(upd[a].spec_name())
        != lower_chars(upd[b].spec_name()) by {
        assert(lower_chars(upd[a].spec_name()) == lower_chars(entries[a].spec_name()));
        assert(lower_chars(upd[b].spec_name()) == lower_chars(entries[b].spec_name()));
    }
    if i == entries.len() - 1 {
        assert(upd.drop_last() =~= entries.drop_last());
        lemma_map_of_agrees(upd.drop_last(), entries.drop_last());
        assert(map_of(entries.update(i, field)) =~= map_of(entries).insert(k, field.spec_value()));
    } else {
        assert(upd.drop_last() =~= entries.drop_last().update(i, field));
        lemma_map_of_update(entries.drop_last(), i, field);
        lemma_map_of_agrees(upd.drop_last(), entries.drop_last().update(i, field));
        let klast = lower_chars(entries.last().spec_name());
        assert(upd.last() == entries.last());
        assert(klast != k) by {
            assert(lower_chars(entries[i].spec_name()) == k);
        }
        assert(map_of(upd) =~= map_of(entries).insert(k, field.spec_value()));
    }
}

} // verus!
