//! JSON values, rows, and their compact one-line text form.

use vstd::prelude::*;
use vstd::string::StringExecFns;
use crate::text::digit_char;
use crate::text::lemma_decimal_has_only_digits;
use crate::text::push_signed_decimal;
use crate::text::signed_decimal;
use crate::text::str_eq;

verus! {

/// A JSON value as a row field can hold it.
#[derive(Debug, Clone, PartialEq, Eq)]
pub enum JsonValue {
    Null,
    Bool(bool),
    Number(i64),
    String(String),
    /// An array of strings.
    Array(Vec<String>),
}

/// Mathematical model of a [`JsonValue`].
pub ghost enum JsonModel {
    Null,
    Bool(bool),
    Number(int),
    String(Seq<char>),
    Array(Seq<Seq<char>>),
}

impl View for JsonValue {
    type V = JsonModel;

    open spec fn view(&self) -> JsonModel {
        match self {
            JsonValue::Null => JsonModel::Null,
            JsonValue::Bool(b) => JsonModel::Bool(*b),
            JsonValue::Number(n) => JsonModel::Number(*n as int),
            JsonValue::String(s) => JsonModel::String(s@),
            JsonValue::Array(items) => JsonModel::Array(items.deep_view()),
        }
    }
}

/// Model of a row: its fields in order, each a name and a value.
pub type RowModel = Seq<(Seq<char>, JsonModel)>;

/// Index of the first field called `key`.
pub open spec fn key_index(fields: RowModel, key: Seq<char>) -> Option<int>
    decreases fields.len(),
{
    if fields.len() == 0 {
        None
    } else if fields[0].0 == key {
        Some(0int)
    } else {
        match key_index(fields.drop_first(), key) {
            Some(i) => Some(i + 1),
            None => None,
        }
    }
}

/// The value of the field called `key`.
pub open spec fn row_get(fields: RowModel, key: Seq<char>) -> Option<JsonModel> {
    match key_index(fields, key) {
        Some(i) => Some(fields[i].1),
        None => None,
    }
}

/// Setting a field: an existing field of that name keeps its place and takes the
/// new value; a new name is appended.
pub open spec fn row_insert(fields: RowModel, key: Seq<char>, value: JsonModel) -> RowModel {
    match key_index(fields, key) {
        Some(i) => fields.update(i, (key, value)),
        None => fields.push((key, value)),
    }
}

/// No two fields share a name.
pub open spec fn keys_distinct(fields: RowModel) -> bool {
    forall|i: int, j: int|
        0 <= i < j < fields.len() ==> (#[trigger] fields[i]).0 != (#[trigger] fields[j]).0
}

/// `key_index` returns the least index whose field is called `key`.
pub proof fn lemma_key_index(fields: RowModel, key: Seq<char>)
    ensures
        match key_index(fields, key) {
            Some(i) => 0 <= i < fields.len() && fields[i].0 == key && forall|j: int|
                0 <= j < i ==> (#[trigger] fields[j]).0 != key,
            None => forall|j: int| 0 <= j < fields.len() ==> (#[trigger] fields[j]).0 != key,
        },
    decreases fields.len(),
{
    if fields.len() > 0 && fields[0].0 != key {
        let rest = fields.drop_first();
        lemma_key_index(rest, key);
        match key_index(rest, key) {
            Some(i) => {
                assert forall|j: int| 0 <= j < i + 1 implies (#[trigger] fields[j]).0 != key by {
                    if j > 0 {
                        assert(rest[j - 1] == fields[j]);
                    }
                }
            },
            None => {
                assert forall|j: int| 0 <= j < fields.len() implies (#[trigger] fields[j]).0
                    != key by {
                    if j > 0 {
                        assert(rest[j - 1] == fields[j]);
                    }
                }
            },
        }
    }
}

/// Setting a field keeps names distinct, and the field then reads back as set.
pub proof fn lemma_row_insert(fields: RowModel, key: Seq<char>, value: JsonModel)
    requires
        keys_distinct(fields),
    ensures
        keys_distinct(row_insert(fields, key, value)),
        row_get(row_insert(fields, key, value), key) == Some(value),
        forall|other: Seq<char>|
            other != key ==> row_get(row_insert(fields, key, value), other) == row_get(
                fields,
                other,
            ),
{
    let after = row_insert(fields, key, value);
    lemma_key_index(fields, key);
    lemma_key_index(after, key);
    match key_index(fields, key) {
        Some(i) => {
            assert(after[i].0 == key);
        },
        None => {
            assert(after[fields.len() as int].0 == key);
        },
    }
    assert forall|other: Seq<char>| other != key implies row_get(after, other) == row_get(
        fields,
        other,
    ) by {
        lemma_key_index(fields, other);
        lemma_key_index(after, other);
        match key_index(fields, other) {
            Some(i) => {
                assert(after[i] == fields[i]);
                match key_index(after, other) {
                    Some(k) => {
                        if k < i {
                            assert(fields[k].0 != other);
                            assert(after[k].0 == other);
                        }
                    },
                    None => {},
                }
            },
            None => {
                match key_index(after, other) {
                    Some(k) => {
                        assert(after[k].0 == other);
                        if k < fields.len() {
                            assert(fields[k].0 != other);
                        }
                    },
                    None => {},
                }
            },
        }
    }
}

/// The character of a hexadecimal digit, in lower case.
pub open spec fn hex_digit(d: nat) -> char
    recommends
        d < 16,
{
    if d < 10 {
        digit_char(d)
    } else if d == 10 {
        'a'
    } else if d == 11 {
        'b'
    } else if d == 12 {
        'c'
    } else if d == 13 {
        'd'
    } else if d == 14 {
        'e'
    } else {
        'f'
    }
}

/// How one character stands inside a JSON string literal: the quotation mark,
/// the backslash and the control characters below the space are escaped, the
/// common ones by a letter and the others by their number; every other character
/// stands for itself.
pub open spec fn escaped(c: char) -> Seq<char> {
    if c == '"' {
        seq!['\\', '"']
    } else if c == '\\' {
        seq!['\\', '\\']
    } else if c == '\u{8}' {
        seq!['\\', 'b']
    } else if c == '\t' {
        seq!['\\', 't']
    } else if c == '\n' {
        seq!['\\', 'n']
    } else if c == '\u{c}' {
        seq!['\\', 'f']
    } else if c == '\r' {
        seq!['\\', 'r']
    } else if (c as u32) < 0x20 {
        seq![
            '\\',
            'u',
            '0',
            '0',
            hex_digit((c as u32 / 16) as nat),
            hex_digit((c as u32 % 16) as nat),
        ]
    } else {
        seq![c]
    }
}

/// The characters of a text, each as it stands inside a JSON string literal.
pub open spec fn escaped_text(text: Seq<char>) -> Seq<char>
    decreases text.len(),
{
    if text.len() == 0 {
        Seq::empty()
    } else {
        escaped_text(text.drop_last()) + escaped(text.last())
    }
}

/// The text of a string as a JSON string literal: the escaped text between
/// quotation marks.
pub open spec fn json_string_literal(text: Seq<char>) -> Seq<char> {
    seq!['"'] + escaped_text(text) + seq!['"']
}

/// Calls `serde_json`'s `Display` for `Value` on a string value (`Value::to_string`),
/// which writes the string between quotation marks and escapes, by its table of
/// escapes, the quotation mark, the backslash and the bytes below 0x20: backspace,
/// tab, line feed, form feed and carriage return by a letter, the others as
/// `\u00` and two lower-case hexadecimal digits.
#[verifier::external_body]
fn quote(text: &str) -> (literal: String)
    ensures
        literal@ == json_string_literal(text@),
{
    serde_json::Value::String(text.to_owned()).to_string()
}

/// String literals of `items`, separated by commas.
pub open spec fn array_items_text(items: Seq<Seq<char>>) -> Seq<char>
    decreases items.len(),
{
    if items.len() == 0 {
        Seq::empty()
    } else if items.len() == 1 {
        json_string_literal(items[0])
    } else {
        array_items_text(items.drop_last()) + seq![','] + json_string_literal(items.last())
    }
}

/// Compact JSON text of a value.
pub open spec fn value_text(value: JsonModel) -> Seq<char> {
    match value {
        JsonModel::Null => seq!['n', 'u', 'l', 'l'],
        JsonModel::Bool(b) => if b {
            seq!['t', 'r', 'u', 'e']
        } else {
            seq!['f', 'a', 'l', 's', 'e']
        },
        JsonModel::Number(n) => signed_decimal(n),
        JsonModel::String(s) => json_string_literal(s),
        JsonModel::Array(items) => seq!['['] + array_items_text(items) + seq![']'],
    }
}

/// Compact JSON text of one field: the quoted name, a colon, the value.
pub open spec fn field_text(field: (Seq<char>, JsonModel)) -> Seq<char> {
    json_string_literal(field.0) + seq![':'] + value_text(field.1)
}

/// Texts of `fields`, separated by commas.
pub open spec fn fields_text(fields: RowModel) -> Seq<char>
    decreases fields.len(),
{
    if fields.len() == 0 {
        Seq::empty()
    } else if fields.len() == 1 {
        field_text(fields[0])
    } else {
        fields_text(fields.drop_last()) + seq![','] + field_text(fields.last())
    }
}

/// Compact JSON text of a row: its fields in order between braces.
pub open spec fn row_text(fields: RowModel) -> Seq<char> {
    seq!['{'] + fields_text(fields) + seq!['}']
}

/// One record of a newline-delimited file: the row's text and a line feed.
pub open spec fn row_line(fields: RowModel) -> Seq<char> {
    row_text(fields) + seq!['\n']
}

/// Whether a text holds no line feed.
pub open spec fn has_no_line_feed(text: Seq<char>) -> bool {
    forall|i: int| 0 <= i < text.len() ==> text[i] != '\n'
}

/// A JSON string literal holds no line feed: the line feeds of the text are
/// escaped.
pub proof fn lemma_literal_has_no_line_feed(text: Seq<char>)
    ensures
        has_no_line_feed(escaped_text(text)),
        has_no_line_feed(json_string_literal(text)),
    decreases text.len(),
{
    if text.len() > 0 {
        lemma_literal_has_no_line_feed(text.drop_last());
        assert(has_no_line_feed(escaped(text.last())));
    }
}

/// The text of an array's items holds no line feed.
pub proof fn lemma_array_items_have_no_line_feed(items: Seq<Seq<char>>)
    ensures
        has_no_line_feed(array_items_text(items)),
    decreases items.len(),
{
    if items.len() > 0 {
        lemma_literal_has_no_line_feed(items.last());
        lemma_literal_has_no_line_feed(items[0]);
        if items.len() > 1 {
            lemma_array_items_have_no_line_feed(items.drop_last());
        }
    }
}

/// The text of a value holds no line feed.
pub proof fn lemma_value_has_no_line_feed(value: JsonModel)
    ensures
        has_no_line_feed(value_text(value)),
{
    match value {
        JsonModel::Null => {},
        JsonModel::Bool(_) => {},
        JsonModel::Number(n) => {
            if n < 0 {
                lemma_decimal_has_only_digits((-n) as nat);
            } else {
                lemma_decimal_has_only_digits(n as nat);
            }
        },
        JsonModel::String(text) => {
            lemma_literal_has_no_line_feed(text);
        },
        JsonModel::Array(items) => {
            lemma_array_items_have_no_line_feed(items);
        },
    }
}

/// The text of a row's fields holds no line feed.
pub proof fn lemma_fields_have_no_line_feed(fields: RowModel)
    ensures
        has_no_line_feed(fields_text(fields)),
    decreases fields.len(),
{
    if fields.len() > 0 {
        lemma_literal_has_no_line_feed(fields.last().0);
        lemma_value_has_no_line_feed(fields.last().1);
        lemma_literal_has_no_line_feed(fields[0].0);
        lemma_value_has_no_line_feed(fields[0].1);
        if fields.len() > 1 {
            lemma_fields_have_no_line_feed(fields.drop_last());
        }
    }
}

/// A record is one line: its only line feed is its last character.
pub proof fn lemma_row_line_is_one_line(fields: RowModel)
    ensures
        row_line(fields).len() > 0,
        forall|i: int|
            0 <= i < row_line(fields).len() ==> (row_line(fields)[i] == '\n' <==> i == row_line(
                fields,
            ).len() - 1),
{
    lemma_fields_have_no_line_feed(fields);
    assert(has_no_line_feed(row_text(fields)));
}

impl JsonValue {
    /// A copy that holds the same value.
    pub fn duplicate(&self) -> (copy: JsonValue)
        ensures
            copy@ == self@,
    {
        match self {
            JsonValue::Null => JsonValue::Null,
            JsonValue::Bool(b) => JsonValue::Bool(*b),
            JsonValue::Number(n) => JsonValue::Number(*n),
            JsonValue::String(s) => JsonValue::String(s.clone()),
            JsonValue::Array(items) => {
                let mut copy: Vec<String> = Vec::new();
                let mut i: usize = 0;
                while i < items.len()
                    invariant
                        i <= items.len(),
                        copy.len() == i,
                        forall|j: int| 0 <= j < i ==> copy[j]@ == items[j]@,
                    decreases items.len() - i,
                {
                    copy.push(items[i].clone());
                    i += 1;
                }
                assert(copy.deep_view() =~= items.deep_view());
                JsonValue::Array(copy)
            },
        }
    }

    /// The string this value holds, if it is a string.
    pub fn as_str(&self) -> (text: Option<&str>)
        ensures
            match text {
                Some(s) => self@ == JsonModel::String(s@),
                None => !(self@ is String),
            },
    {
        match self {
            JsonValue::String(s) => Some(s.as_str()),
            _ => None,
        }
    }

    /// Appends the compact JSON text of this value to `out`.
    pub fn write_text(&self, out: &mut String)
        ensures
            final(out)@ == old(out)@ + value_text(self@),
    {
        match self {
            JsonValue::Null => {
                proof {
                    reveal_strlit("null");
                }
                out.append("null");
                assert(out@ =~= old(out)@ + value_text(self@));
            },
            JsonValue::Bool(b) => {
                proof {
                    reveal_strlit("true");
                    reveal_strlit("false");
                }
                if *b {
                    out.append("true");
                } else {
                    out.append("false");
                }
                assert(out@ =~= old(out)@ + value_text(self@));
            },
            JsonValue::Number(n) => {
                push_signed_decimal(out, *n);
            },
            JsonValue::String(s) => {
                let literal = quote(s.as_str());
                out.append(literal.as_str());
            },
            JsonValue::Array(items) => {
                proof {
                    reveal_strlit("[");
                    reveal_strlit("]");
                }
                out.append("[");
                let ghost opened = out@;
                let mut i: usize = 0;
                while i < items.len()
                    invariant
                        i <= items.len(),
                        opened == old(out)@ + seq!['['],
                        out@ == opened + array_items_text(items.deep_view().take(i as int)),
                    decreases items.len() - i,
                {
                    proof {
                        reveal_strlit(",");
                    }
                    let ghost before = items.deep_view().take(i as int);
                    let ghost after = items.deep_view().take(i + 1);
                    assert(after.drop_last() =~= before);
                    assert(after.last() == items[i as int]@);
                    if i > 0 {
                        out.append(",");
                    }
                    let literal = quote(items[i].as_str());
                    out.append(literal.as_str());
                    assert(out@ =~= opened + array_items_text(after));
                    i += 1;
                }
                assert(items.deep_view().take(items.len() as int) =~= items.deep_view());
                out.append("]");
                assert(out@ =~= old(out)@ + value_text(self@));
            },
        }
    }
}

/// One named value of a row.
#[derive(Debug, Clone, PartialEq, Eq)]
pub struct Field {
    pub name: String,
    pub value: JsonValue,
}

impl View for Field {
    type V = (Seq<char>, JsonModel);

    open spec fn view(&self) -> (Seq<char>, JsonModel) {
        (self.name@, self.value@)
    }
}

/// A JSON object built field by field; its fields keep the order in which their
/// names first came, and no name occurs twice.
#[derive(Debug, PartialEq, Eq)]
pub struct Row {
    fields: Vec<Field>,
}

spec fn model_of(fields: Seq<Field>) -> RowModel {
    Seq::new(fields.len(), |i: int| fields[i]@)
}

impl View for Row {
    type V = RowModel;

    closed spec fn view(&self) -> RowModel {
        model_of(self.fields@)
    }
}

impl Clone for Row {
    fn clone(&self) -> (copy: Row)
        ensures
            copy@ == self@,
    {
        proof {
            use_type_invariant(self);
        }
        let mut fields: Vec<Field> = Vec::new();
        let mut i: usize = 0;
        while i < self.fields.len()
            invariant
                i <= self.fields.len(),
                fields.len() == i,
                forall|j: int| 0 <= j < i ==> fields[j]@ == self.fields[j]@,
            decreases self.fields.len() - i,
        {
            let name = self.fields[i].name.clone();
            let value = self.fields[i].value.duplicate();
            fields.push(Field { name, value });
            i += 1;
        }
        assert(model_of(fields@) =~= model_of(self.fields@));
        Row { fields }
    }
}

impl Row {
    #[verifier::type_invariant]
    spec fn names_distinct(&self) -> bool {
        keys_distinct(self@)
    }

    /// A row without fields.
    pub fn new() -> (row: Row)
        ensures
            row@ == Seq::<(Seq<char>, JsonModel)>::empty(),
    {
        let fields: Vec<Field> = Vec::new();
        assert(model_of(fields@) =~= Seq::<(Seq<char>, JsonModel)>::empty());
        Row { fields }
    }

    /// Number of fields.
    pub fn len(&self) -> (n: usize)
        ensures
            n == self@.len(),
            keys_distinct(self@),
    {
        proof {
            use_type_invariant(self);
        }
        self.fields.len()
    }

    /// Name of the field at `index`.
    pub fn name_at(&self, index: usize) -> (name: &str)
        requires
            index < self@.len(),
        ensures
            name@ == self@[index as int].0,
    {
        self.fields[index].name.as_str()
    }

    /// Value of the field at `index`.
    pub fn value_at(&self, index: usize) -> (value: &JsonValue)
        requires
            index < self@.len(),
        ensures
            value@ == self@[index as int].1,
    {
        &self.fields[index].value
    }

    fn position(&self, key: &str) -> (found: Option<usize>)
        ensures
            match found {
                Some(i) => key_index(self@, key@) == Some(i as int) && i < self@.len(),
                None => key_index(self@, key@) is None,
            },
    {
        let mut i: usize = 0;
        while i < self.fields.len()
            invariant
                i <= self.fields.len(),
                forall|j: int| 0 <= j < i ==> (#[trigger] self@[j]).0 != key@,
            decreases self.fields.len() - i,
        {
            if str_eq(self.fields[i].name.as_str(), key) {
                proof {
                    lemma_key_index(self@, key@);
                    assert(self@[i as int].0 == key@);
                }
                return Some(i);
            }
            i += 1;
        }
        proof {
            lemma_key_index(self@, key@);
        }
        None
    }

    /// The value of the field called `key`.
    pub fn get(&self, key: &str) -> (value: Option<&JsonValue>)
        ensures
            match value {
                Some(v) => row_get(self@, key@) == Some(v@),
                None => row_get(self@, key@) is None,
            },
    {
        match self.position(key) {
            Some(i) => Some(&self.fields[i].value),
            None => None,
        }
    }

    /// Sets the field called `key` to `value`.
    pub fn insert(&mut self, key: String, value: JsonValue)
        ensures
            final(self)@ == row_insert(old(self)@, key@, value@),
            keys_distinct(final(self)@),
    {
        proof {
            use_type_invariant(&*self);
            lemma_row_insert(self@, key@, value@);
        }
        let ghost target = row_insert(self@, key@, value@);
        let position = self.position(key.as_str());
        let mut fields: Vec<Field> = Vec::new();
        assert(model_of(fields@) =~= Seq::<(Seq<char>, JsonModel)>::empty());
        core::mem::swap(&mut fields, &mut self.fields);
        match position {
            Some(i) => {
                fields.set(i, Field { name: key, value });
            },
            None => {
                fields.push(Field { name: key, value });
            },
        }
        assert(model_of(fields@) =~= target);
        core::mem::swap(&mut fields, &mut self.fields);
    }

    /// Appends the compact JSON text of this row to `out`.
    pub fn write_text(&self, out: &mut String)
        ensures
            final(out)@ == old(out)@ + row_text(self@),
    {
        proof {
            reveal_strlit("{");
            reveal_strlit("}");
        }
        out.append("{");
        let ghost opened = out@;
        let mut i: usize = 0;
        while i < self.fields.len()
            invariant
                i <= self.fields.len(),
                opened == old(out)@ + seq!['{'],
                out@ == opened + fields_text(self@.take(i as int)),
            decreases self.fields.len() - i,
        {
            proof {
                reveal_strlit(",");
                reveal_strlit(":");
            }
            let ghost before = self@.take(i as int);
            let ghost after = self@.take(i + 1);
            assert(after.drop_last() =~= before);
            assert(after.last() == self@[i as int]);
            if i > 0 {
                out.append(",");
            }
            let ghost started = out@;
            let name = quote(self.fields[i].name.as_str());
            out.append(name.as_str());
            out.append(":");
            self.fields[i].value.write_text(out);
            assert(out@ =~= started + field_text(self@[i as int]));
            assert(out@ =~= opened + fields_text(after));
            i += 1;
        }
        assert(self@.take(self.fields.len() as int) =~= self@);
        out.append("}");
        assert(out@ =~= old(out)@ + row_text(self@));
    }

    /// The row as one record of a newline-delimited file.
    pub fn to_json_line(&self) -> (line: String)
        ensures
            line@ == row_line(self@),
    {
        let mut line = String::new();
        self.write_text(&mut line);
        proof {
            reveal_strlit("\n");
        }
        line.append("\n");
        assert(line@ =~= row_line(self@));
        line
    }
}

} // verus!
