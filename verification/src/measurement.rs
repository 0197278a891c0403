//! Measurements: a name, tags, fields and a timestamp, and the one line of
//! line protocol that each is written as.

use crate::entries::{
    lemma_ascending_unique, lemma_map_of_names, map_of, names_ascend, pairs_view, Entries,
};
use crate::field::{lemma_field_text_one_line, value_free_of, Field, FieldValue};
use crate::tag::{escaped, TagValue};
use crate::text::{
    decimal, free_of, join, join_strings, lemma_decimal_digits, lemma_join_free_of, push_char,
    push_decimal,
};
use std::time::{Duration, SystemTime, SystemTimeError};
use vstd::prelude::*;
use vstd::std_specs::convert::FromSpecImpl;
use vstd::string::StringExecFns;

verus! {

/// The text of one tag: its name, an equals sign, its escaped value.
pub open spec fn tag_text(tag: (Seq<char>, Seq<char>)) -> Seq<char> {
    tag.0 + seq!['='] + tag.1
}

/// The text of one field: its name, an equals sign, the text of its value.
pub open spec fn field_text(field: (Seq<char>, FieldValue)) -> Seq<char> {
    field.0 + seq!['='] + field.1.text()
}

/// The texts of the tags, in order, with commas between them.
pub open spec fn tags_text(tags: Seq<(Seq<char>, Seq<char>)>) -> Seq<char> {
    join(Seq::new(tags.len(), |i: int| tag_text(tags[i])), seq![','])
}

/// The texts of the fields, in order, with commas between them.
pub open spec fn fields_text(fields: Seq<(Seq<char>, FieldValue)>) -> Seq<char> {
    join(Seq::new(fields.len(), |i: int| field_text(fields[i])), seq![','])
}

/// The line of a measurement: the name as it stands; a comma and the tags,
/// where there are any; a space and the fields; a space and the timestamp in
/// decimal.
pub open spec fn line_text(
    name: Seq<char>,
    tags: Seq<(Seq<char>, Seq<char>)>,
    fields: Seq<(Seq<char>, FieldValue)>,
    timestamp_ms: nat,
) -> Seq<char> {
    let head = if tags.len() == 0 {
        name
    } else {
        name + seq![','] + tags_text(tags)
    };
    head + seq![' '] + fields_text(fields) + seq![' '] + decimal(timestamp_ms)
}

/// A point of measurement.
///
/// Tags and fields are kept by name, in ascending order of the names, so two
/// measurements with the same tags and fields are written as the same line.
#[derive(Debug, Clone, PartialEq)]
pub struct Measurement {
    measurement_name: String,
    timestamp_ms: u128,
    tags: Entries<TagValue>,
    fields: Entries<Field>,
}

impl Measurement {
    /// The name of the measurement.
    pub closed spec fn name(self) -> Seq<char> {
        self.measurement_name@
    }

    /// The timestamp, in milliseconds since the Unix epoch.
    pub closed spec fn timestamp(self) -> u128 {
        self.timestamp_ms
    }

    /// The tags in the order in which they are written: each name with its
    /// escaped value.
    pub closed spec fn tags(self) -> Seq<(Seq<char>, Seq<char>)> {
        self.tags@
    }

    /// The fields in the order in which they are written.
    pub closed spec fn fields(self) -> Seq<(Seq<char>, FieldValue)> {
        self.fields@
    }

    /// There is at least one field, and the names of the tags and of the
    /// fields strictly ascend.
    pub open spec fn well_formed(self) -> bool {
        &&& self.fields().len() > 0
        &&& names_ascend(self.tags())
        &&& names_ascend(self.fields())
    }

    /// The line that the measurement is written as.
    pub open spec fn line(self) -> Seq<char> {
        line_text(self.name(), self.tags(), self.fields(), self.timestamp() as nat)
    }

    /// A measurement of the given parts, unless `fields` is empty.
    pub fn new(
        measurement_name: String,
        timestamp_ms: u128,
        tags: Entries<TagValue>,
        fields: Entries<Field>,
    ) -> (r: Result<Self, MeasurementBuilderError>)
        ensures
            fields@.len() == 0 ==> r == Err::<Self, _>(MeasurementBuilderError::EmptyFields),
            fields@.len() > 0 ==> r is Ok,
            r matches Ok(m) ==> {
                &&& m.well_formed()
                &&& m.name() == measurement_name@
                &&& m.timestamp() == timestamp_ms
                &&& m.tags() == tags@
                &&& m.fields() == fields@
            },
    {
        proof {
            use_type_invariant(&tags);
            use_type_invariant(&fields);
        }
        if fields.is_empty() {
            Err(MeasurementBuilderError::EmptyFields)
        } else {
            Ok(Measurement { measurement_name, timestamp_ms, tags, fields })
        }
    }

    /// Starts a measurement of the given name.
    pub fn builder<N: Into<String>>(measurement_name: N) -> (r: MeasurementBuilder)
        ensures
            exists|n: String| #[trigger] call_ensures(N::into, (measurement_name,), n) && r.name() == n@,
            r.tags().len() == 0,
            r.fields().len() == 0,
            r.timestamp() is None,
    {
        MeasurementBuilder::new(measurement_name)
    }

    /// Adds a field to the measurement, or gives a field that is there a new
    /// value.
    pub fn add_field<N: Into<String>, V: Into<Field>>(&mut self, name: N, value: V)
        ensures
            exists|n: String, f: Field|
                #![trigger call_ensures(N::into, (name,), n), call_ensures(V::into, (value,), f)]
                call_ensures(N::into, (name,), n) && call_ensures(V::into, (value,), f) && map_of(
                    final(self).fields(),
                ) == map_of(old(self).fields()).insert(n@, f@),
            names_ascend(final(self).fields()),
            final(self).fields().len() > 0,
            final(self).tags() == old(self).tags(),
            final(self).name() == old(self).name(),
            final(self).timestamp() == old(self).timestamp(),
    {
        let n: String = name.into();
        let f: Field = value.into();
        self.fields.insert(n, f);
    }

    /// Adds a tag to the measurement, or gives a tag that is there a new
    /// value. The value is escaped.
    pub fn add_tag<N: Into<String>, V: Into<String>>(&mut self, name: N, value: V)
        ensures
            exists|n: String, v: String|
                #![trigger call_ensures(N::into, (name,), n), call_ensures(V::into, (value,), v)]
                call_ensures(N::into, (name,), n) && call_ensures(V::into, (value,), v) && map_of(
                    final(self).tags(),
                ) == map_of(old(self).tags()).insert(n@, escaped(v@)),
            names_ascend(final(self).tags()),
            final(self).fields() == old(self).fields(),
            final(self).name() == old(self).name(),
            final(self).timestamp() == old(self).timestamp(),
    {
        let n: String = name.into();
        let v: String = value.into();
        self.tags.insert(n, TagValue::new(v));
    }

    fn measurement_part(&self) -> (r: &str)
        ensures
            r@ == self.name(),
    {
        self.measurement_name.as_str()
    }

    fn tags_part(&self) -> (r: String)
        ensures
            r@ == tags_text(self.tags()),
    {
        let mut parts: Vec<String> = Vec::new();
        let mut i: usize = 0;
        while i < self.tags.len()
            invariant
                i <= self.tags@.len(),
                parts@.len() == i,
                forall|k: int| 0 <= k < i ==> (#[trigger] parts@[k])@ == tag_text(self.tags@[k]),
            decreases self.tags@.len() - i,
        {
            let mut part = self.tags.name(i).to_owned();
            push_char(&mut part, '=');
            part.append(self.tags.value(i).as_str());
            parts.push(part);
            i = i + 1;
        }
        proof {
            reveal_strlit(",");
            assert(","@ =~= seq![',']);
            assert(parts.deep_view() =~= Seq::new(
                self.tags().len(),
                |i: int| tag_text(self.tags()[i]),
            ));
        }
        join_strings(&parts, ",")
    }

    fn fields_part(&self) -> (r: String)
        ensures
            r@ == fields_text(self.fields()),
    {
        let mut parts: Vec<String> = Vec::new();
        let mut i: usize = 0;
        while i < self.fields.len()
            invariant
                i <= self.fields@.len(),
                parts@.len() == i,
                forall|k: int|
                    0 <= k < i ==> (#[trigger] parts@[k])@ == field_text(self.fields@[k]),
            decreases self.fields@.len() - i,
        {
            let mut part = self.fields.name(i).to_owned();
            push_char(&mut part, '=');
            self.fields.value(i).write_to(&mut part);
            proof {
                assert(part@ =~= field_text(self.fields@[i as int]));
            }
            parts.push(part);
            i = i + 1;
        }
        proof {
            reveal_strlit(",");
            assert(","@ =~= seq![',']);
            assert(parts.deep_view() =~= Seq::new(
                self.fields().len(),
                |i: int| field_text(self.fields()[i]),
            ));
        }
        join_strings(&parts, ",")
    }

    /// Writes the measurement as one line of line protocol.
    pub fn to_line_protocol(&self) -> (r: String)
        ensures
            r@ == self.line(),
    {
        let mut out = self.measurement_part().to_owned();
        if !self.tags.is_empty() {
            push_char(&mut out, ',');
            let tags = self.tags_part();
            out.append(tags.as_str());
        }
        push_char(&mut out, ' ');
        let fields = self.fields_part();
        out.append(fields.as_str());
        push_char(&mut out, ' ');
        push_decimal(&mut out, self.timestamp_ms);
        proof {
            assert(out@ =~= self.line());
        }
        out
    }
}

/// A measurement is written as one line: where no name, no tag value and no
/// string or float text of a field holds a line feed, the line holds none.
pub proof fn lemma_line_is_one_line(m: Measurement)
    requires
        free_of(m.name(), '\n'),
        forall|i: int|
            0 <= i < m.tags().len() ==> free_of((#[trigger] m.tags()[i]).0, '\n') && free_of(
                m.tags()[i].1,
                '\n',
            ),
        forall|i: int|
            0 <= i < m.fields().len() ==> free_of((#[trigger] m.fields()[i]).0, '\n')
                && value_free_of(m.fields()[i].1, '\n'),
    ensures
        free_of(m.line(), '\n'),
{
    let tags = m.tags();
    let fields = m.fields();
    let tag_parts = Seq::new(tags.len(), |i: int| tag_text(tags[i]));
    let field_parts = Seq::new(fields.len(), |i: int| field_text(fields[i]));
    assert forall|k: int| 0 <= k < tag_parts.len() implies free_of(
        #[trigger] tag_parts[k],
        '\n',
    ) by {
        assert(free_of(tags[k].0, '\n') && free_of(tags[k].1, '\n'));
    }
    assert forall|k: int| 0 <= k < field_parts.len() implies free_of(
        #[trigger] field_parts[k],
        '\n',
    ) by {
        assert(free_of(fields[k].0, '\n'));
        lemma_field_text_one_line(fields[k].1);
    }
    lemma_join_free_of(tag_parts, seq![','], '\n');
    lemma_join_free_of(field_parts, seq![','], '\n');
    lemma_decimal_digits(m.timestamp() as nat);
}

/// The order in which tags and fields were given does not show in the line:
/// two measurements with the same name, the same timestamp, the same value
/// for each tag name and the same value for each field name are written as
/// the same line.
pub proof fn lemma_same_parts_same_line(a: Measurement, b: Measurement)
    requires
        a.well_formed(),
        b.well_formed(),
        a.name() == b.name(),
        a.timestamp() == b.timestamp(),
        map_of(a.tags()) == map_of(b.tags()),
        map_of(a.fields()) == map_of(b.fields()),
    ensures
        a.line() == b.line(),
{
    lemma_ascending_unique(a.tags(), b.tags());
    lemma_ascending_unique(a.fields(), b.fields());
}

/// Why a measurement could not be built.
#[derive(Debug)]
pub enum MeasurementBuilderError {
    /// No field was given.
    EmptyFields,
    /// No timestamp was given, and the system clock stands before the Unix
    /// epoch.
    SystemTimeError(SystemTimeError),
}

impl MeasurementBuilderError {
    /// Says in words what went wrong.
    pub fn to_string(&self) -> (r: String)
        ensures
            self is EmptyFields ==> r@ == "fields cannot be empty"@,
            self is SystemTimeError ==> exists|said: Seq<char>|
                r@ == "SystemTimeError: '"@ + said + seq!['\''],
    {
        match self {
            MeasurementBuilderError::EmptyFields => "fields cannot be empty".to_owned(),
            MeasurementBuilderError::SystemTimeError(e) => {
                let mut out = "SystemTimeError: '".to_owned();
                let said = e.to_string();
                out.append(said.as_str());
                push_char(&mut out, '\'');
                proof {
                    assert(out@ == "SystemTimeError: '"@ + said@ + seq!['\'']);
                }
                out
            },
        }
    }
}

/// Collects the parts of a measurement.
pub struct MeasurementBuilder {
    name: String,
    tags: Vec<(String, TagValue)>,
    fields: Vec<(String, Field)>,
    timestamp: Option<u128>,
}

impl MeasurementBuilder {
    /// The name given.
    pub closed spec fn name(self) -> Seq<char> {
        self.name@
    }

    /// The tags given so far, in the order in which they came: each name with
    /// its escaped value.
    pub closed spec fn tags(self) -> Seq<(Seq<char>, Seq<char>)> {
        pairs_view(self.tags@)
    }

    /// The fields given so far, in the order in which they came.
    pub closed spec fn fields(self) -> Seq<(Seq<char>, FieldValue)> {
        pairs_view(self.fields@)
    }

    /// The timestamp, if one was given.
    pub closed spec fn timestamp(self) -> Option<u128> {
        self.timestamp
    }

    /// A builder with the given name and nothing else.
    pub fn new<N: Into<String>>(measurement_name: N) -> (r: Self)
        ensures
            exists|n: String| #[trigger] call_ensures(N::into, (measurement_name,), n) && r.name() == n@,
            r.tags().len() == 0,
            r.fields().len() == 0,
            r.timestamp() is None,
    {
        MeasurementBuilder {
            name: measurement_name.into(),
            tags: Vec::new(),
            fields: Vec::new(),
            timestamp: None,
        }
    }

    /// Gives a tag. The value is escaped.
    pub fn tag<N: Into<String>, V: Into<String>>(self, name: N, value: V) -> (r: Self)
        ensures
            exists|n: String, v: String|
                #![trigger call_ensures(N::into, (name,), n), call_ensures(V::into, (value,), v)]
                call_ensures(N::into, (name,), n) && call_ensures(V::into, (value,), v)
                    && r.tags() == self.tags().push((n@, escaped(v@))),
            r.fields() == self.fields(),
            r.name() == self.name(),
            r.timestamp() == self.timestamp(),
    {
        let mut b = self;
        let n: String = name.into();
        let v: String = value.into();
        let ghost pair = (n@, escaped(v@));
        b.tags.push((n, TagValue::new(v)));
        proof {
            assert(b.tags() =~= self.tags().push(pair));
        }
        b
    }

    /// Gives a field.
    pub fn field<N: Into<String>, V: Into<Field>>(self, name: N, value: V) -> (r: Self)
        ensures
            exists|n: String, f: Field|
                #![trigger call_ensures(N::into, (name,), n), call_ensures(V::into, (value,), f)]
                call_ensures(N::into, (name,), n) && call_ensures(V::into, (value,), f)
                    && r.fields() == self.fields().push((n@, f@)),
            r.tags() == self.tags(),
            r.name() == self.name(),
            r.timestamp() == self.timestamp(),
    {
        let mut b = self;
        let n: String = name.into();
        let f: Field = value.into();
        let ghost pair = (n@, f@);
        b.fields.push((n, f));
        proof {
            assert(b.fields() =~= self.fields().push(pair));
        }
        b
    }

    /// Gives the timestamp, in milliseconds since the Unix epoch.
    pub fn timestamp_ms(self, timestamp_ms: u128) -> (r: Self)
        ensures
            r.timestamp() == Some(timestamp_ms),
            r.tags() == self.tags(),
            r.fields() == self.fields(),
            r.name() == self.name(),
    {
        let mut b = self;
        b.timestamp = Some(timestamp_ms);
        b
    }

    /// Whether `m` is the measurement that this builder stands for at the
    /// time `timestamp_ms`: it has the builder's name, for each tag name and
    /// each field name the value given last, and that timestamp.
    pub open spec fn builds(self, m: Measurement, timestamp_ms: u128) -> bool {
        &&& m.well_formed()
        &&& m.name() == self.name()
        &&& m.timestamp() == timestamp_ms
        &&& map_of(m.tags()) == map_of(self.tags())
        &&& map_of(m.fields()) == map_of(self.fields())
    }

    /// Builds the measurement, with `now_ms` as its timestamp where none was
    /// given. Fails if and only if no field was given.
    pub fn build_at(self, now_ms: u128) -> (r: Result<Measurement, MeasurementBuilderError>)
        ensures
            self.fields().len() == 0 ==> r == Err::<Measurement, _>(
                MeasurementBuilderError::EmptyFields,
            ),
            self.fields().len() > 0 ==> r is Ok,
            r matches Ok(m) ==> self.builds(
                m,
                match self.timestamp() {
                    Some(t) => t,
                    None => now_ms,
                },
            ),
    {
        let timestamp_ms = match self.timestamp {
            Some(t) => t,
            None => now_ms,
        };
        let ghost field_count = self.fields@.len();
        let tags = Entries::from_pairs(self.tags);
        let fields = Entries::from_pairs(self.fields);
        proof {
            // The collected fields are empty exactly when none was given.
            if field_count > 0 {
                let last = self.fields()[field_count - 1];
                assert(map_of(self.fields()).contains_key(last.0));
                lemma_map_of_names(fields@, last.0);
            } else if fields@.len() > 0 {
                lemma_map_of_names(fields@, fields@[0].0);
            }
        }
        Measurement::new(self.name, timestamp_ms, tags, fields)
    }

    /// Builds the measurement. Where no timestamp was given, the system clock
    /// gives it.
    pub fn build(self) -> (r: Result<Measurement, MeasurementBuilderError>)
        ensures
            self.fields().len() == 0 ==> r == Err::<Measurement, _>(
                MeasurementBuilderError::EmptyFields,
            ),
            self.fields().len() > 0 && self.timestamp() is Some ==> r is Ok,
            r matches Ok(m) ==> self.builds(
                m,
                match self.timestamp() {
                    Some(t) => t,
                    None => m.timestamp(),
                },
            ),
            r matches Err(e) ==> (e is EmptyFields <==> self.fields().len() == 0),
    {
        if self.fields.len() == 0 {
            return Err(MeasurementBuilderError::EmptyFields);
        }
        match self.timestamp {
            Some(t) => self.build_at(t),
            None => {
                let now = clock_now();
                match since_epoch(&now) {
                    Ok(elapsed) => self.build_at(whole_millis(&elapsed)),
                    Err(e) => Err(MeasurementBuilderError::from(e)),
                }
            },
        }
    }
}

impl From<SystemTimeError> for MeasurementBuilderError {
    fn from(e: SystemTimeError) -> (r: Self) {
        MeasurementBuilderError::SystemTimeError(e)
    }
}

impl FromSpecImpl<SystemTimeError> for MeasurementBuilderError {
    open spec fn obeys_from_spec() -> bool {
        true
    }

    open spec fn from_spec(e: SystemTimeError) -> Self {
        MeasurementBuilderError::SystemTimeError(e)
    }
}

// A point in time and the error of a time before the epoch, as the standard
// library has them: values that are carried through, nothing is known of
// what they hold.
#[verifier::external_type_specification]
#[verifier::external_body]
pub struct ExSystemTime(std::time::SystemTime);

#[verifier::external_type_specification]
#[verifier::external_body]
pub struct ExSystemTimeError(std::time::SystemTimeError);

/// The time on the system clock.
///
/// Trusted: calls `SystemTime::now`. Nothing is claimed of the time that comes
/// back.
#[verifier::external_body]
fn clock_now() -> (now: SystemTime) {
    SystemTime::now()
}

/// How long after the Unix epoch `t` stands.
///
/// Trusted: calls `SystemTime::duration_since` with `UNIX_EPOCH`, which fails
/// for a time before the epoch. Nothing is claimed of which of the two comes
/// back.
#[verifier::external_body]
fn since_epoch(t: &SystemTime) -> (elapsed: Result<Duration, SystemTimeError>) {
    t.duration_since(SystemTime::UNIX_EPOCH)
}

/// The whole milliseconds in `d`.
///
/// Trusted: calls `Duration::as_millis`. Nothing is claimed of the number.
#[verifier::external_body]
fn whole_millis(d: &Duration) -> (millis: u128) {
    d.as_millis()
}

} // verus!
