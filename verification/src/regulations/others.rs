//! Rules that are held against the raw fields of a record: bounds on every
//! quality setting, banned parts, and required parts.

use vstd::prelude::*;
use vstd::string::*;
use crate::number::{parse_whole, whole_of};
use crate::regulations::{
    conclude, count_matches, labelled, match_count, name_matches, push_banned, push_when,
    reason_if, repeated, reports, Category, CheckError, Matching,
};
use crate::specs::{Car, Field, RawField};
use crate::text::{
    ends_with, has_suffix, join, joined, lowercase, quote, quoted, texts, to_lower, trim,
    trimmed,
};

verus! {

/// A part that a record must have: one value, or any of several.
#[derive(Debug, Clone, PartialEq, Eq)]
pub enum ReqPart {
    Part(String),
    Choice(Vec<String>),
}

/// A required part as the contracts see it.
pub enum Requirement {
    Part(Seq<char>),
    Choice(Seq<Seq<char>>),
}

impl View for ReqPart {
    type V = Requirement;

    open spec fn view(&self) -> Requirement {
        match self {
            ReqPart::Part(s) => Requirement::Part(s@),
            ReqPart::Choice(parts) => Requirement::Choice(texts(parts@)),
        }
    }
}

/// Rules on the raw fields. A field left out is not checked, but for the
/// quality bounds, which then stand at -15 and 15.
#[derive(Debug)]
pub struct Others {
    pub required_parts: Option<Vec<ReqPart>>,
    pub banned_parts: Option<Vec<String>>,
    pub min_quality: Option<isize>,
    pub max_quality: Option<isize>,
}

impl Requirement {
    /// Whether `value` meets the requirement: it equals the required part,
    /// or one of the choices, white space around either aside.
    pub open spec fn accepts(self, value: Seq<char>) -> bool {
        match self {
            Requirement::Part(s) => trimmed(s) == trimmed(value),
            Requirement::Choice(parts) => match_count(parts, Matching::Trimmed, value) > 0,
        }
    }

    /// Whether some field holds a value that meets the requirement.
    pub open spec fn found(self, fields: Seq<Field>) -> bool {
        exists|i: int| 0 <= i < fields.len() && self.accepts((#[trigger] fields[i]).value)
    }

    /// The requirement written as the debug form of the rulebook's entry
    /// writes it.
    pub open spec fn text(self) -> Seq<char> {
        match self {
            Requirement::Part(s) => "Part("@ + quoted(s) + ")"@,
            Requirement::Choice(parts) => "Choice(["@ + joined(
                parts.map_values(|s: Seq<char>| quoted(s)),
                ", "@,
            ) + "])"@,
        }
    }
}

/// The requirements of a list, as the contracts see them.
pub open spec fn requirements_of(v: Seq<ReqPart>) -> Seq<Requirement> {
    v.map_values(|p: ReqPart| p@)
}

/// Whether a field's name marks it as a quality setting: trimmed and in
/// lower case, it ends in "quality".
pub open spec fn is_quality_name(name: Seq<char>) -> bool {
    has_suffix(lowercase(trimmed(name)), "quality"@)
}

/// The quality that a text writes, as a machine integer: the fraction is
/// dropped and the range of `isize` holds the rest.
pub open spec fn quality_of(value: Seq<char>) -> Option<int> {
    whole_of(value, isize::MIN as int, isize::MAX as int)
}

/// What one field adds to the quality scan: nothing unless it is a quality
/// setting; then a reason if its value is no number, or lies outside
/// `lo..=hi`.
pub open spec fn quality_reasons(field: Field, lo: int, hi: int) -> Seq<Seq<char>> {
    if !is_quality_name(field.name) {
        Seq::empty()
    } else {
        match quality_of(field.value) {
            None => seq!["incorrect int "@ + field.name],
            Some(v) => reason_if(!(lo <= v <= hi), "illegal quality "@ + field.name),
        }
    }
}

/// The reasons of the quality scan over the fields, in field order.
pub open spec fn quality_scan(fields: Seq<Field>, lo: int, hi: int) -> Seq<Seq<char>>
    decreases fields.len(),
{
    if fields.len() == 0 {
        Seq::empty()
    } else {
        quality_scan(fields.drop_last(), lo, hi) + quality_reasons(fields.last(), lo, hi)
    }
}

/// What one field adds to the search for banned parts: a reason for each
/// banned part that, trimmed, is the field's value.
pub open spec fn banned_reasons(field: Field, parts: Seq<Seq<char>>) -> Seq<Seq<char>> {
    repeated(
        "banned part "@ + field.value,
        match_count(parts, Matching::TrimmedEntry, field.value),
    )
}

/// The reasons of the search for banned parts, in field order.
pub open spec fn banned_scan(fields: Seq<Field>, parts: Seq<Seq<char>>) -> Seq<Seq<char>>
    decreases fields.len(),
{
    if fields.len() == 0 {
        Seq::empty()
    } else {
        banned_scan(fields.drop_last(), parts) + banned_reasons(fields.last(), parts)
    }
}

/// The requirements that no field meets, in the order of the rulebook.
pub open spec fn missing(required: Seq<Requirement>, fields: Seq<Field>) -> Seq<Requirement>
    decreases required.len(),
{
    if required.len() == 0 {
        Seq::empty()
    } else if required.last().found(fields) {
        missing(required.drop_last(), fields)
    } else {
        missing(required.drop_last(), fields).push(required.last())
    }
}

/// The one reason that lists the unmet requirements; nothing when all are
/// met.
pub open spec fn missing_reasons(unmet: Seq<Requirement>) -> Seq<Seq<char>> {
    reason_if(
        unmet.len() > 0,
        "parts missing ["@ + joined(unmet.map_values(|r: Requirement| r.text()), ", "@) + "]"@,
    )
}

proof fn lemma_quality_scan_has(fields: Seq<Field>, lo: int, hi: int, reason: Seq<char>)
    ensures
        quality_scan(fields, lo, hi).contains(reason) <==> exists|i: int|
            0 <= i < fields.len() && quality_reasons(#[trigger] fields[i], lo, hi).contains(reason),
    decreases fields.len(),
{
    if fields.len() > 0 {
        let front = fields.drop_last();
        let tail = quality_reasons(fields.last(), lo, hi);
        lemma_quality_scan_has(front, lo, hi, reason);
        lemma_concat_has(quality_scan(front, lo, hi), tail, reason);
        if exists|i: int|
            0 <= i < front.len() && quality_reasons(#[trigger] front[i], lo, hi).contains(reason) {
            let i = choose|i: int|
                0 <= i < front.len() && quality_reasons(#[trigger] front[i], lo, hi).contains(
                    reason,
                );
            assert(fields[i] == front[i]);
        }
        if exists|i: int|
            0 <= i < fields.len() && quality_reasons(#[trigger] fields[i], lo, hi).contains(
                reason,
            ) {
            let i = choose|i: int|
                0 <= i < fields.len() && quality_reasons(#[trigger] fields[i], lo, hi).contains(
                    reason,
                );
            if i < front.len() {
                assert(fields[i] == front[i]);
            }
        }
    }
}

proof fn lemma_banned_scan_has(fields: Seq<Field>, parts: Seq<Seq<char>>, reason: Seq<char>)
    ensures
        banned_scan(fields, parts).contains(reason) <==> exists|i: int|
            0 <= i < fields.len() && banned_reasons(#[trigger] fields[i], parts).contains(reason),
    decreases fields.len(),
{
    if fields.len() > 0 {
        let front = fields.drop_last();
        let tail = banned_reasons(fields.last(), parts);
        lemma_banned_scan_has(front, parts, reason);
        lemma_concat_has(banned_scan(front, parts), tail, reason);
        if exists|i: int|
            0 <= i < front.len() && banned_reasons(#[trigger] front[i], parts).contains(reason) {
            let i = choose|i: int|
                0 <= i < front.len() && banned_reasons(#[trigger] front[i], parts).contains(reason);
            assert(fields[i] == front[i]);
        }
        if exists|i: int|
            0 <= i < fields.len() && banned_reasons(#[trigger] fields[i], parts).contains(reason) {
            let i = choose|i: int|
                0 <= i < fields.len() && banned_reasons(#[trigger] fields[i], parts).contains(
                    reason,
                );
            if i < front.len() {
                assert(fields[i] == front[i]);
            }
        }
    }
}

proof fn lemma_concat_has(a: Seq<Seq<char>>, b: Seq<Seq<char>>, x: Seq<char>)
    ensures
        (a + b).contains(x) <==> a.contains(x) || b.contains(x),
{
    if a.contains(x) {
        let i = choose|i: int| 0 <= i < a.len() && a[i] == x;
        assert((a + b)[i] == x);
    }
    if b.contains(x) {
        let i = choose|i: int| 0 <= i < b.len() && b[i] == x;
        assert((a + b)[a.len() + i] == x);
    }
    if (a + b).contains(x) {
        let i = choose|i: int| 0 <= i < (a + b).len() && (a + b)[i] == x;
        if i < a.len() {
            assert(a[i] == x);
        } else {
            assert(b[i - a.len()] == x);
        }
    }
}

proof fn lemma_same_fields_same_missing(required: Seq<Requirement>, a: Seq<Field>, b: Seq<Field>)
    requires
        forall|f: Field| a.contains(f) <==> b.contains(f),
    ensures
        missing(required, a) == missing(required, b),
    decreases required.len(),
{
    if required.len() > 0 {
        lemma_same_fields_same_missing(required.drop_last(), a, b);
        let entry = required.last();
        if entry.found(a) {
            let i = choose|i: int| 0 <= i < a.len() && entry.accepts((#[trigger] a[i]).value);
            assert(a.contains(a[i]));
            let j = choose|j: int| 0 <= j < b.len() && b[j] == a[i];
            assert(entry.accepts(b[j].value));
        }
        if entry.found(b) {
            let i = choose|i: int| 0 <= i < b.len() && entry.accepts((#[trigger] b[i]).value);
            assert(b.contains(b[i]));
            let j = choose|j: int| 0 <= j < a.len() && a[j] == b[i];
            assert(entry.accepts(a[j].value));
        }
    }
}

/// The reasons found in the raw fields do not depend on the order in which
/// the fields are visited: two arrangements of the same fields give the
/// same set of reasons.
pub proof fn lemma_field_order_is_immaterial(rules: Others, a: Seq<Field>, b: Seq<Field>)
    requires
        a.to_multiset() == b.to_multiset(),
    ensures
        rules.reasons_for(a).to_set() == rules.reasons_for(b).to_set(),
{
    broadcast use vstd::seq_lib::to_multiset_contains;

    assert forall|f: Field| a.contains(f) <==> b.contains(f) by {
        assert(a.contains(f) <==> a.to_multiset().count(f) > 0);
        assert(b.contains(f) <==> b.to_multiset().count(f) > 0);
    }
    let lo = rules.floor();
    let hi = rules.ceiling();
    let parts = rules.banned_list();
    lemma_same_fields_same_missing(rules.required_list(), a, b);
    let rest = missing_reasons(missing(rules.required_list(), a));
    assert forall|r: Seq<char>| rules.reasons_for(a).contains(r) <==> rules.reasons_for(
        b,
    ).contains(r) by {
        lemma_concat_has(quality_scan(a, lo, hi) + banned_scan(a, parts), rest, r);
        lemma_concat_has(quality_scan(b, lo, hi) + banned_scan(b, parts), rest, r);
        lemma_concat_has(quality_scan(a, lo, hi), banned_scan(a, parts), r);
        lemma_concat_has(quality_scan(b, lo, hi), banned_scan(b, parts), r);
        lemma_quality_scan_has(a, lo, hi, r);
        lemma_quality_scan_has(b, lo, hi, r);
        lemma_banned_scan_has(a, parts, r);
        lemma_banned_scan_has(b, parts, r);
        if quality_scan(a, lo, hi).contains(r) {
            let i = choose|i: int|
                0 <= i < a.len() && quality_reasons(#[trigger] a[i], lo, hi).contains(r);
            assert(a.contains(a[i]));
            let j = choose|j: int| 0 <= j < b.len() && b[j] == a[i];
            assert(quality_reasons(b[j], lo, hi).contains(r));
        }
        if quality_scan(b, lo, hi).contains(r) {
            let i = choose|i: int|
                0 <= i < b.len() && quality_reasons(#[trigger] b[i], lo, hi).contains(r);
            assert(b.contains(b[i]));
            let j = choose|j: int| 0 <= j < a.len() && a[j] == b[i];
            assert(quality_reasons(a[j], lo, hi).contains(r));
        }
        if banned_scan(a, parts).contains(r) {
            let i = choose|i: int|
                0 <= i < a.len() && banned_reasons(#[trigger] a[i], parts).contains(r);
            assert(a.contains(a[i]));
            let j = choose|j: int| 0 <= j < b.len() && b[j] == a[i];
            assert(banned_reasons(b[j], parts).contains(r));
        }
        if banned_scan(b, parts).contains(r) {
            let i = choose|i: int|
                0 <= i < b.len() && banned_reasons(#[trigger] b[i], parts).contains(r);
            assert(b.contains(b[i]));
            let j = choose|j: int| 0 <= j < a.len() && a[j] == b[i];
            assert(banned_reasons(a[j], parts).contains(r));
        }
    }
    assert(rules.reasons_for(a).to_set() =~= rules.reasons_for(b).to_set());
}

proof fn lemma_missing_has(required: Seq<Requirement>, fields: Seq<Field>, entry: Requirement)
    ensures
        missing(required, fields).contains(entry) <==> required.contains(entry) && !entry.found(
            fields,
        ),
    decreases required.len(),
{
    if required.len() > 0 {
        let front = required.drop_last();
        let last = required.last();
        lemma_missing_has(front, fields, entry);
        let rest = missing(front, fields);
        if required.contains(entry) {
            let i = choose|i: int| 0 <= i < required.len() && required[i] == entry;
            if i < front.len() {
                assert(front[i] == entry);
            }
        }
        if front.contains(entry) {
            let i = choose|i: int| 0 <= i < front.len() && front[i] == entry;
            assert(required[i] == entry);
        }
        assert(required[required.len() - 1] == last);
        if !last.found(fields) {
            let grown = rest.push(last);
            assert(grown[rest.len() as int] == last);
            if rest.contains(entry) {
                let i = choose|i: int| 0 <= i < rest.len() && rest[i] == entry;
                assert(grown[i] == entry);
            }
            if grown.contains(entry) {
                let i = choose|i: int| 0 <= i < grown.len() && grown[i] == entry;
                if i < rest.len() {
                    assert(rest[i] == entry);
                }
            }
        }
    }
}

/// Meeting requirements only grows with the fields. When a field is added
/// anywhere in a record, a requirement that was met stays met; one that
/// was not met stays unmet unless the new field meets it; and so the
/// missing requirements afterwards are those that were missing before and
/// that the new field does not meet.
pub proof fn lemma_more_fields_meet_more(
    required: Seq<Requirement>,
    fields: Seq<Field>,
    at: int,
    extra: Field,
    entry: Requirement,
)
    requires
        0 <= at <= fields.len(),
    ensures
        entry.found(fields) ==> entry.found(fields.insert(at, extra)),
        entry.found(fields.insert(at, extra)) <==> entry.found(fields) || entry.accepts(
            extra.value,
        ),
        missing(required, fields.insert(at, extra)).contains(entry) <==> missing(
            required,
            fields,
        ).contains(entry) && !entry.accepts(extra.value),
{
    let more = fields.insert(at, extra);
    if entry.found(fields) {
        let i = choose|i: int| 0 <= i < fields.len() && entry.accepts((#[trigger] fields[i]).value);
        if i < at {
            assert(more[i] == fields[i]);
        } else {
            assert(more[i + 1] == fields[i]);
        }
    }
    if entry.accepts(extra.value) {
        assert(more[at] == extra);
    }
    if entry.found(more) {
        let i = choose|i: int| 0 <= i < more.len() && entry.accepts((#[trigger] more[i]).value);
        if i < at {
            assert(more[i] == fields[i]);
        } else if i > at {
            assert(more[i] == fields[i - 1]);
        }
    }
    lemma_missing_has(required, fields, entry);
    lemma_missing_has(required, more, entry);
}

impl ReqPart {
    /// Whether `v` meets the requirement.
    pub fn validate(&self, v: String) -> (r: bool)
        ensures
            r == self@.accepts(v@),
    {
        match self {
            ReqPart::Part(s) => name_matches(Matching::Trimmed, s.as_str(), v.as_str()),
            ReqPart::Choice(parts) => count_matches(parts, Matching::Trimmed, v.as_str()) > 0,
        }
    }

    /// Whether some field holds a value that meets the requirement.
    pub fn is_found(&self, fields: &Vec<RawField>) -> (r: bool)
        ensures
            r == self@.found(fields@.map_values(|f: RawField| f@)),
    {
        let ghost all = fields@.map_values(|f: RawField| f@);
        let mut i: usize = 0;
        while i < fields.len()
            invariant
                i <= fields.len(),
                all == fields@.map_values(|f: RawField| f@),
                forall|k: int| 0 <= k < i ==> !self@.accepts((#[trigger] all[k]).value),
            decreases fields.len() - i,
        {
            if self.validate(fields[i].value.clone()) {
                assert(self@.accepts(all[i as int].value));
                return true;
            }
            i += 1;
        }
        false
    }

    /// The requirement written as the debug form of the entry writes it.
    pub fn to_text(&self) -> (r: String)
        ensures
            r@ == self@.text(),
    {
        match self {
            ReqPart::Part(s) => {
                let mut r = String::from_str("Part(");
                let q = quote(s.as_str());
                r.append(q.as_str());
                r.append(")");
                r
            },
            ReqPart::Choice(parts) => {
                let ghost names = texts(parts@).map_values(|s: Seq<char>| quoted(s));
                let mut quotes: Vec<String> = Vec::new();
                let mut i: usize = 0;
                assert(texts(quotes@) =~= names.take(0));
                while i < parts.len()
                    invariant
                        i <= parts.len(),
                        names == texts(parts@).map_values(|s: Seq<char>| quoted(s)),
                        texts(quotes@) == names.take(i as int),
                    decreases parts.len() - i,
                {
                    let ghost before = quotes@;
                    quotes.push(quote(parts[i].as_str()));
                    assert(texts(quotes@) =~= texts(before).push(quoted(parts@[i as int]@)));
                    assert(names.take(i + 1) =~= names.take(i as int).push(names[i as int]));
                    i += 1;
                }
                assert(names.take(parts.len() as int) =~= names);
                let mut r = String::from_str("Choice([");
                let j = join(&quotes, ", ");
                r.append(j.as_str());
                r.append("])");
                r
            },
        }
    }
}

/// Decides `is_quality_name`.
pub fn names_quality(name: &str) -> (r: bool)
    ensures
        r == is_quality_name(name@),
{
    let t = trim(name);
    let l = to_lower(t.as_str());
    ends_with(l.as_str(), "quality")
}

impl Others {
    /// The least quality allowed: -15 unless the rulebook says otherwise.
    pub open spec fn floor(&self) -> int {
        match self.min_quality {
            Some(v) => v as int,
            None => -15,
        }
    }

    /// The greatest quality allowed: 15 unless the rulebook says otherwise.
    pub open spec fn ceiling(&self) -> int {
        match self.max_quality {
            Some(v) => v as int,
            None => 15,
        }
    }

    /// The banned parts; none when the rulebook lists none.
    pub open spec fn banned_list(&self) -> Seq<Seq<char>> {
        match self.banned_parts {
            Some(v) => texts(v@),
            None => Seq::empty(),
        }
    }

    /// The required parts; none when the rulebook lists none.
    pub open spec fn required_list(&self) -> Seq<Requirement> {
        match self.required_parts {
            Some(v) => requirements_of(v@),
            None => Seq::empty(),
        }
    }

    /// Every violated rule for a record with these raw fields: the quality
    /// scan, then the banned parts, then the missing parts.
    pub open spec fn reasons_for(&self, fields: Seq<Field>) -> Seq<Seq<char>> {
        quality_scan(fields, self.floor(), self.ceiling()) + banned_scan(fields, self.banned_list())
            + missing_reasons(missing(self.required_list(), fields))
    }

    /// Every violated rule for the record.
    pub open spec fn reasons(&self, car: &Car) -> Seq<Seq<char>> {
        self.reasons_for(car.raw@)
    }

    /// Adds what one field contributes to the quality scan.
    fn check_quality(&self, errs: &mut Vec<String>, field: &RawField)
        ensures
            texts(final(errs)@) == texts(old(errs)@) + quality_reasons(
                field@,
                self.floor(),
                self.ceiling(),
            ),
    {
        let lo: isize = match self.min_quality {
            Some(v) => v,
            None => -15,
        };
        let hi: isize = match self.max_quality {
            Some(v) => v,
            None => 15,
        };
        if names_quality(field.name.as_str()) {
            match parse_whole(field.value.as_str(), isize::MIN as i128, isize::MAX as i128) {
                Some(v) => {
                    push_when(
                        errs,
                        !(lo as i128 <= v && v <= hi as i128),
                        labelled("illegal quality ", field.name.as_str()),
                    );
                },
                None => {
                    push_when(errs, true, labelled("incorrect int ", field.name.as_str()));
                },
            }
        } else {
            assert(texts(errs@) =~= texts(old(errs)@) + Seq::<Seq<char>>::empty());
        }
    }

    /// Adds what one field contributes to the search for banned parts.
    fn check_banned(&self, errs: &mut Vec<String>, field: &RawField)
        ensures
            texts(final(errs)@) == texts(old(errs)@) + banned_reasons(field@, self.banned_list()),
    {
        push_banned(
            errs,
            &self.banned_parts,
            Matching::TrimmedEntry,
            field.value.as_str(),
            labelled("banned part ", field.value.as_str()),
        );
        proof {
            if self.banned_parts is None {
                assert(repeated("banned part "@ + field.value@, 0) =~= Seq::<Seq<char>>::empty());
            }
        }
    }

    /// The texts of the requirements that no field meets.
    fn unmet(&self, fields: &Vec<RawField>) -> (r: Vec<String>)
        ensures
            texts(r@) == missing(
                self.required_list(),
                fields@.map_values(|f: RawField| f@),
            ).map_values(|r: Requirement| r.text()),
    {
        let ghost all = fields@.map_values(|f: RawField| f@);
        let mut out: Vec<String> = Vec::new();
        match &self.required_parts {
            Some(required) => {
                let ghost needs = requirements_of(required@);
                let mut i: usize = 0;
                assert(needs.take(0) =~= Seq::<Requirement>::empty());
                assert(texts(out@) =~= missing(needs.take(0), all).map_values(
                    |r: Requirement| r.text(),
                ));
                while i < required.len()
                    invariant
                        i <= required.len(),
                        all == fields@.map_values(|f: RawField| f@),
                        needs == requirements_of(required@),
                        texts(out@) == missing(needs.take(i as int), all).map_values(
                            |r: Requirement| r.text(),
                        ),
                    decreases required.len() - i,
                {
                    let ghost before = out@;
                    proof {
                        let next = needs.take(i + 1);
                        assert(next.drop_last() =~= needs.take(i as int));
                        assert(next.last() == required@[i as int]@);
                    }
                    if !required[i].is_found(fields) {
                        out.push(required[i].to_text());
                        assert(texts(out@) =~= texts(before).push(required@[i as int]@.text()));
                        assert(missing(needs.take(i + 1), all).map_values(
                            |r: Requirement| r.text(),
                        ) =~= missing(needs.take(i as int), all).map_values(
                            |r: Requirement| r.text(),
                        ).push(required@[i as int]@.text()));
                    }
                    i += 1;
                }
                assert(needs.take(required.len() as int) =~= needs);
            },
            None => {
                assert(texts(out@) =~= Seq::<Requirement>::empty().map_values(
                    |r: Requirement| r.text(),
                ));
            },
        }
        out
    }

    /// Holds the record's raw fields against the rules and reports every
    /// one that they violate.
    pub fn check_car(&self, car: &Car) -> (r: Result<(), CheckError>)
        ensures
            reports(r, Category::Others, self.reasons(car)),
    {
        let fields = &car.raw.fields;
        let ghost all = car.raw@;
        let mut errs: Vec<String> = Vec::new();
        let mut i: usize = 0;
        assert(texts(errs@) =~= Seq::<Seq<char>>::empty());
        assert(all.take(0) =~= Seq::<Field>::empty());
        while i < fields.len()
            invariant
                i <= fields.len(),
                all == fields@.map_values(|f: RawField| f@),
                texts(errs@) == quality_scan(all.take(i as int), self.floor(), self.ceiling()),
            decreases fields.len() - i,
        {
            proof {
                let next = all.take(i + 1);
                assert(next.drop_last() =~= all.take(i as int));
                assert(next.last() == fields@[i as int]@);
            }
            self.check_quality(&mut errs, &fields[i]);
            i += 1;
        }
        assert(all.take(fields.len() as int) =~= all);
        let ghost scanned = texts(errs@);
        i = 0;
        assert(texts(errs@) =~= scanned + Seq::<Seq<char>>::empty());
        while i < fields.len()
            invariant
                i <= fields.len(),
                all == fields@.map_values(|f: RawField| f@),
                texts(errs@) == scanned + banned_scan(all.take(i as int), self.banned_list()),
            decreases fields.len() - i,
        {
            let ghost before = texts(errs@);
            proof {
                let next = all.take(i + 1);
                assert(next.drop_last() =~= all.take(i as int));
                assert(next.last() == fields@[i as int]@);
            }
            self.check_banned(&mut errs, &fields[i]);
            assert(texts(errs@) =~= scanned + banned_scan(all.take(i + 1), self.banned_list()));
            i += 1;
        }
        assert(all.take(fields.len() as int) =~= all);
        let names = self.unmet(fields);
        let mut reason = String::from_str("parts missing [");
        let listed = join(&names, ", ");
        reason.append(listed.as_str());
        reason.append("]");
        proof {
            let unmet = missing(self.required_list(), all);
            assert(unmet.map_values(|r: Requirement| r.text()).len() == unmet.len());
        }
        push_when(&mut errs, names.len() > 0, reason);
        conclude(Category::Others, errs)
    }
}

} // verus!
