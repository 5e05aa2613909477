//! Extraction: from an untyped value to a value of a type that the caller
//! chose.

use vstd::prelude::*;
use crate::error::Error;
use crate::error::ErrorView;
use crate::error::Fault;
use crate::error::FaultView;
use crate::figment::Figment;
use crate::key::folded;
use crate::path::folded_segments;
use crate::tag::default_tag;
use crate::value::Dict;
use crate::metadata::MetadataView;
use crate::tree::Tree;
use crate::value::items_view;
use crate::value::Value;

verus! {

/// A value to extract from, with the engine that it came from.
pub struct ConfiguredValueDe<'c> {
    pub config: &'c Figment,
    pub value: &'c Value,
}

impl<'c> ConfiguredValueDe<'c> {
    /// The value `value` of the engine `config`.
    pub fn from(config: &'c Figment, value: &'c Value) -> (de: ConfiguredValueDe<'c>)
        ensures
            de.config == config,
            de.value == value,
    {
        ConfiguredValueDe { config, value }
    }
}

/// The error of a value of the wrong kind, at the root.
pub open spec fn mismatch(expected: Seq<char>, tree: Tree) -> ErrorView {
    ErrorView { fault: FaultView::TypeMismatch(expected, tree.kind()), path: Seq::empty() }
}

/// The error of a number that the target cannot hold, at the root.
pub open spec fn out_of_range(expected: Seq<char>) -> ErrorView {
    ErrorView { fault: FaultView::InvalidValue("out of range for "@ + expected), path: Seq::empty() }
}

/// An error one step further from the root.
pub open spec fn under(key: Seq<char>, e: ErrorView) -> ErrorView {
    ErrorView { fault: e.fault, path: seq![key] + e.path }
}

/// The error for a value that is not of the kind `expected`.
pub fn type_mismatch(expected: &str, value: &Value) -> (e: Error)
    ensures
        e@ == mismatch(expected@, value@),
{
    Error::new(Fault::TypeMismatch(String::from_str(expected), value.kind()))
}

/// The error for a number that a target of the type `expected` cannot hold.
pub fn range_error(expected: &str) -> (e: Error)
    ensures
        e@ == out_of_range(expected@),
{
    let mut reason = String::from_str("out of range for ");
    reason.append(expected);
    Error::new(Fault::InvalidValue(reason))
}

/// A type that can be extracted from a value.
///
/// The three specification functions say what `extract` does: which values
/// it accepts, what it reads from one that it accepts, and which error it
/// gives for one that it does not. Each has a body here only so that a
/// type outside verified code can implement the trait by writing `extract`
/// alone; that body is an unknown, and says nothing. Of such a type the
/// contract of `extract` holds no information, and nothing is proved of
/// what it does. Every type of this library writes all three.
pub trait Extract: Sized {
    /// Whether a value of this type can be extracted from `tree`, read with
    /// the metadata `metadata`.
    open spec fn accepts(tree: Tree, metadata: Seq<MetadataView>) -> bool {
        arbitrary()
    }

    /// Whether `out` is what `tree` holds.
    open spec fn represents(tree: Tree, metadata: Seq<MetadataView>, out: Self) -> bool {
        arbitrary()
    }

    /// The error for a tree that is not accepted.
    open spec fn refusal(tree: Tree, metadata: Seq<MetadataView>) -> ErrorView {
        arbitrary()
    }

    /// Extracts a value of this type.
    fn extract(de: ConfiguredValueDe) -> (r: Result<Self, Error>)
        ensures
            r is Ok == Self::accepts(de.value@, de.config@.metadata),
            r matches Ok(out) ==> Self::represents(de.value@, de.config@.metadata, out),
            r matches Err(e) ==> e@ == Self::refusal(de.value@, de.config@.metadata),
    ;
}

impl Extract for bool {
    open spec fn accepts(tree: Tree, metadata: Seq<MetadataView>) -> bool {
        tree is Bool
    }

    open spec fn represents(tree: Tree, metadata: Seq<MetadataView>, out: bool) -> bool {
        tree == Tree::Bool(tree.tag(), out)
    }

    open spec fn refusal(tree: Tree, metadata: Seq<MetadataView>) -> ErrorView {
        mismatch("bool"@, tree)
    }

    fn extract(de: ConfiguredValueDe) -> (r: Result<bool, Error>) {
        match de.value.to_bool() {
            Some(b) => Ok(b),
            None => Err(type_mismatch("bool", de.value)),
        }
    }
}

impl Extract for String {
    open spec fn accepts(tree: Tree, metadata: Seq<MetadataView>) -> bool {
        tree is Text
    }

    open spec fn represents(tree: Tree, metadata: Seq<MetadataView>, out: String) -> bool {
        tree is Text && tree->Text_1 == out@
    }

    open spec fn refusal(tree: Tree, metadata: Seq<MetadataView>) -> ErrorView {
        mismatch("string"@, tree)
    }

    fn extract(de: ConfiguredValueDe) -> (r: Result<String, Error>) {
        match de.value.as_str() {
            Some(s) => Ok(String::from_str(s)),
            None => Err(type_mismatch("string", de.value)),
        }
    }
}

impl Extract for u64 {
    open spec fn accepts(tree: Tree, metadata: Seq<MetadataView>) -> bool {
        tree is Number && 0 <= tree->Number_1 <= u64::MAX
    }

    open spec fn represents(tree: Tree, metadata: Seq<MetadataView>, out: u64) -> bool {
        tree is Number && tree->Number_1 == out
    }

    open spec fn refusal(tree: Tree, metadata: Seq<MetadataView>) -> ErrorView {
        if tree is Number {
            out_of_range("u64"@)
        } else {
            mismatch("u64"@, tree)
        }
    }

    fn extract(de: ConfiguredValueDe) -> (r: Result<u64, Error>) {
        match de.value.to_num() {
            Some(n) => match n.to_u64() {
                Some(n) => Ok(n),
                None => Err(range_error("u64")),
            },
            None => Err(type_mismatch("u64", de.value)),
        }
    }
}

impl<T: Extract> Extract for Option<T> {
    open spec fn accepts(tree: Tree, metadata: Seq<MetadataView>) -> bool {
        tree is Null || T::accepts(tree, metadata)
    }

    open spec fn represents(tree: Tree, metadata: Seq<MetadataView>, out: Option<T>) -> bool {
        match out {
            None => tree is Null,
            Some(x) => !(tree is Null) && T::represents(tree, metadata, x),
        }
    }

    open spec fn refusal(tree: Tree, metadata: Seq<MetadataView>) -> ErrorView {
        T::refusal(tree, metadata)
    }

    fn extract(de: ConfiguredValueDe) -> (r: Result<Option<T>, Error>) {
        match de.value {
            Value::Null(_) => Ok(None),
            _ => match T::extract(de) {
                Ok(x) => Ok(Some(x)),
                Err(e) => Err(e),
            },
        }
    }
}

impl Extract for u8 {
    open spec fn accepts(tree: Tree, metadata: Seq<MetadataView>) -> bool {
        tree is Number && 0 <= tree->Number_1 <= u8::MAX
    }

    open spec fn represents(tree: Tree, metadata: Seq<MetadataView>, out: u8) -> bool {
        tree is Number && tree->Number_1 == out
    }

    open spec fn refusal(tree: Tree, metadata: Seq<MetadataView>) -> ErrorView {
        if tree is Number {
            out_of_range("u8"@)
        } else {
            mismatch("u8"@, tree)
        }
    }

    fn extract(de: ConfiguredValueDe) -> (r: Result<u8, Error>) {
        match de.value.to_num() {
            Some(n) => match n.to_u8() {
                Some(n) => Ok(n),
                None => Err(range_error("u8")),
            },
            None => Err(type_mismatch("u8", de.value)),
        }
    }
}

impl Extract for u16 {
    open spec fn accepts(tree: Tree, metadata: Seq<MetadataView>) -> bool {
        tree is Number && 0 <= tree->Number_1 <= u16::MAX
    }

    open spec fn represents(tree: Tree, metadata: Seq<MetadataView>, out: u16) -> bool {
        tree is Number && tree->Number_1 == out
    }

    open spec fn refusal(tree: Tree, metadata: Seq<MetadataView>) -> ErrorView {
        if tree is Number {
            out_of_range("u16"@)
        } else {
            mismatch("u16"@, tree)
        }
    }

    fn extract(de: ConfiguredValueDe) -> (r: Result<u16, Error>) {
        match de.value.to_num() {
            Some(n) => match n.to_u16() {
                Some(n) => Ok(n),
                None => Err(range_error("u16")),
            },
            None => Err(type_mismatch("u16", de.value)),
        }
    }
}

impl Extract for u32 {
    open spec fn accepts(tree: Tree, metadata: Seq<MetadataView>) -> bool {
        tree is Number && 0 <= tree->Number_1 <= u32::MAX
    }

    open spec fn represents(tree: Tree, metadata: Seq<MetadataView>, out: u32) -> bool {
        tree is Number && tree->Number_1 == out
    }

    open spec fn refusal(tree: Tree, metadata: Seq<MetadataView>) -> ErrorView {
        if tree is Number {
            out_of_range("u32"@)
        } else {
            mismatch("u32"@, tree)
        }
    }

    fn extract(de: ConfiguredValueDe) -> (r: Result<u32, Error>) {
        match de.value.to_num() {
            Some(n) => match n.to_u32() {
                Some(n) => Ok(n),
                None => Err(range_error("u32")),
            },
            None => Err(type_mismatch("u32", de.value)),
        }
    }
}

impl Extract for usize {
    open spec fn accepts(tree: Tree, metadata: Seq<MetadataView>) -> bool {
        tree is Number && 0 <= tree->Number_1 <= usize::MAX
    }

    open spec fn represents(tree: Tree, metadata: Seq<MetadataView>, out: usize) -> bool {
        tree is Number && tree->Number_1 == out
    }

    open spec fn refusal(tree: Tree, metadata: Seq<MetadataView>) -> ErrorView {
        if tree is Number {
            out_of_range("usize"@)
        } else {
            mismatch("usize"@, tree)
        }
    }

    fn extract(de: ConfiguredValueDe) -> (r: Result<usize, Error>) {
        match de.value.to_num() {
            Some(n) => match n.to_usize() {
                Some(n) => Ok(n),
                None => Err(range_error("usize")),
            },
            None => Err(type_mismatch("usize", de.value)),
        }
    }
}

impl Extract for i64 {
    open spec fn accepts(tree: Tree, metadata: Seq<MetadataView>) -> bool {
        tree is Number && i64::MIN <= tree->Number_1 <= i64::MAX
    }

    open spec fn represents(tree: Tree, metadata: Seq<MetadataView>, out: i64) -> bool {
        tree is Number && tree->Number_1 == out
    }

    open spec fn refusal(tree: Tree, metadata: Seq<MetadataView>) -> ErrorView {
        if tree is Number {
            out_of_range("i64"@)
        } else {
            mismatch("i64"@, tree)
        }
    }

    fn extract(de: ConfiguredValueDe) -> (r: Result<i64, Error>) {
        match de.value.to_num() {
            Some(n) => match n.to_i64() {
                Some(n) => Ok(n),
                None => Err(range_error("i64")),
            },
            None => Err(type_mismatch("i64", de.value)),
        }
    }
}

impl Extract for u128 {
    open spec fn accepts(tree: Tree, metadata: Seq<MetadataView>) -> bool {
        tree is Number && 0 <= tree->Number_1 <= u128::MAX
    }

    open spec fn represents(tree: Tree, metadata: Seq<MetadataView>, out: u128) -> bool {
        tree is Number && tree->Number_1 == out
    }

    open spec fn refusal(tree: Tree, metadata: Seq<MetadataView>) -> ErrorView {
        if tree is Number {
            out_of_range("u128"@)
        } else {
            mismatch("u128"@, tree)
        }
    }

    fn extract(de: ConfiguredValueDe) -> (r: Result<u128, Error>) {
        match de.value.to_num() {
            Some(n) => match n.to_u128() {
                Some(n) => Ok(n),
                None => Err(range_error("u128")),
            },
            None => Err(type_mismatch("u128", de.value)),
        }
    }
}

impl Extract for i128 {
    open spec fn accepts(tree: Tree, metadata: Seq<MetadataView>) -> bool {
        tree is Number && i128::MIN <= tree->Number_1 <= i128::MAX
    }

    open spec fn represents(tree: Tree, metadata: Seq<MetadataView>, out: i128) -> bool {
        tree is Number && tree->Number_1 == out
    }

    open spec fn refusal(tree: Tree, metadata: Seq<MetadataView>) -> ErrorView {
        if tree is Number {
            out_of_range("i128"@)
        } else {
            mismatch("i128"@, tree)
        }
    }

    fn extract(de: ConfiguredValueDe) -> (r: Result<i128, Error>) {
        match de.value.to_num() {
            Some(n) => match n.to_i128() {
                Some(n) => Ok(n),
                None => Err(range_error("i128")),
            },
            None => Err(type_mismatch("i128", de.value)),
        }
    }
}

impl Extract for i32 {
    open spec fn accepts(tree: Tree, metadata: Seq<MetadataView>) -> bool {
        tree is Number && i32::MIN <= tree->Number_1 <= i32::MAX
    }

    open spec fn represents(tree: Tree, metadata: Seq<MetadataView>, out: i32) -> bool {
        tree is Number && tree->Number_1 == out
    }

    open spec fn refusal(tree: Tree, metadata: Seq<MetadataView>) -> ErrorView {
        if tree is Number {
            out_of_range("i32"@)
        } else {
            mismatch("i32"@, tree)
        }
    }

    fn extract(de: ConfiguredValueDe) -> (r: Result<i32, Error>) {
        match de.value.to_num() {
            Some(n) => match n.to_i32() {
                Some(n) => Ok(n),
                None => Err(range_error("i32")),
            },
            None => Err(type_mismatch("i32", de.value)),
        }
    }
}

impl Extract for i16 {
    open spec fn accepts(tree: Tree, metadata: Seq<MetadataView>) -> bool {
        tree is Number && i16::MIN <= tree->Number_1 <= i16::MAX
    }

    open spec fn represents(tree: Tree, metadata: Seq<MetadataView>, out: i16) -> bool {
        tree is Number && tree->Number_1 == out
    }

    open spec fn refusal(tree: Tree, metadata: Seq<MetadataView>) -> ErrorView {
        if tree is Number {
            out_of_range("i16"@)
        } else {
            mismatch("i16"@, tree)
        }
    }

    fn extract(de: ConfiguredValueDe) -> (r: Result<i16, Error>) {
        match de.value.to_num() {
            Some(n) => match n.to_i16() {
                Some(n) => Ok(n),
                None => Err(range_error("i16")),
            },
            None => Err(type_mismatch("i16", de.value)),
        }
    }
}

impl Extract for i8 {
    open spec fn accepts(tree: Tree, metadata: Seq<MetadataView>) -> bool {
        tree is Number && i8::MIN <= tree->Number_1 <= i8::MAX
    }

    open spec fn represents(tree: Tree, metadata: Seq<MetadataView>, out: i8) -> bool {
        tree is Number && tree->Number_1 == out
    }

    open spec fn refusal(tree: Tree, metadata: Seq<MetadataView>) -> ErrorView {
        if tree is Number {
            out_of_range("i8"@)
        } else {
            mismatch("i8"@, tree)
        }
    }

    fn extract(de: ConfiguredValueDe) -> (r: Result<i8, Error>) {
        match de.value.to_num() {
            Some(n) => match n.to_i8() {
                Some(n) => Ok(n),
                None => Err(range_error("i8")),
            },
            None => Err(type_mismatch("i8", de.value)),
        }
    }
}

impl Extract for isize {
    open spec fn accepts(tree: Tree, metadata: Seq<MetadataView>) -> bool {
        tree is Number && isize::MIN <= tree->Number_1 <= isize::MAX
    }

    open spec fn represents(tree: Tree, metadata: Seq<MetadataView>, out: isize) -> bool {
        tree is Number && tree->Number_1 == out
    }

    open spec fn refusal(tree: Tree, metadata: Seq<MetadataView>) -> ErrorView {
        if tree is Number {
            out_of_range("isize"@)
        } else {
            mismatch("isize"@, tree)
        }
    }

    fn extract(de: ConfiguredValueDe) -> (r: Result<isize, Error>) {
        match de.value.to_num() {
            Some(n) => match n.to_isize() {
                Some(n) => Ok(n),
                None => Err(range_error("isize")),
            },
            None => Err(type_mismatch("isize", de.value)),
        }
    }
}

/// One decimal digit, written out.
pub open spec fn digit(d: nat) -> Seq<char> {
    if d == 0 {
        "0"@
    } else if d == 1 {
        "1"@
    } else if d == 2 {
        "2"@
    } else if d == 3 {
        "3"@
    } else if d == 4 {
        "4"@
    } else if d == 5 {
        "5"@
    } else if d == 6 {
        "6"@
    } else if d == 7 {
        "7"@
    } else if d == 8 {
        "8"@
    } else {
        "9"@
    }
}

/// A number written in decimal digits, without leading zeros.
pub open spec fn decimal(n: nat) -> Seq<char>
    decreases n,
{
    if n < 10 {
        digit(n)
    } else {
        decimal(n / 10) + digit(n % 10)
    }
}

/// Writes one decimal digit.
pub fn digit_str(d: usize) -> (s: &'static str)
    requires
        d < 10,
    ensures
        s@ == digit(d as nat),
{
    if d == 0 {
        "0"
    } else if d == 1 {
        "1"
    } else if d == 2 {
        "2"
    } else if d == 3 {
        "3"
    } else if d == 4 {
        "4"
    } else if d == 5 {
        "5"
    } else if d == 6 {
        "6"
    } else if d == 7 {
        "7"
    } else if d == 8 {
        "8"
    } else {
        "9"
    }
}

/// Writes a number in decimal digits: the key of an item of an array in
/// the path of an error.
pub fn decimal_string(n: usize) -> (s: String)
    ensures
        s@ == decimal(n as nat),
    decreases n,
{
    if n < 10 {
        String::from_str(digit_str(n))
    } else {
        let mut s = decimal_string(n / 10);
        s.append(digit_str(n % 10));
        s
    }
}

/// The place of the first item from `from` on that `T` does not accept; the
/// length of the list where it accepts them all.
pub open spec fn first_refused<T: Extract>(
    items: Seq<Tree>,
    metadata: Seq<MetadataView>,
    from: int,
) -> int
    decreases items.len() - from,
{
    if from < 0 || from >= items.len() {
        items.len() as int
    } else if !T::accepts(items[from], metadata) {
        from
    } else {
        first_refused::<T>(items, metadata, from + 1)
    }
}

impl<T: Extract> Extract for Vec<T> {
    /// An array all of whose items are accepted. A dict is not read as a
    /// sequence.
    open spec fn accepts(tree: Tree, metadata: Seq<MetadataView>) -> bool {
        tree is List && first_refused::<T>(tree->List_1, metadata, 0) == tree->List_1.len()
    }

    open spec fn represents(tree: Tree, metadata: Seq<MetadataView>, out: Vec<T>) -> bool {
        &&& tree is List
        &&& out@.len() == tree->List_1.len()
        &&& forall|i: int|
            0 <= i < out@.len() ==> T::represents(#[trigger] tree->List_1[i], metadata, out@[i])
    }

    /// The error of the first item that is not accepted, under its place in
    /// the array.
    open spec fn refusal(tree: Tree, metadata: Seq<MetadataView>) -> ErrorView {
        if tree is List {
            let i = first_refused::<T>(tree->List_1, metadata, 0);
            under(decimal(i as nat), T::refusal(tree->List_1[i], metadata))
        } else {
            mismatch("array"@, tree)
        }
    }

    fn extract(de: ConfiguredValueDe) -> (r: Result<Vec<T>, Error>) {
        match de.value.as_array() {
            Some(items) => {
                let ghost trees = de.value@->List_1;
                let ghost metadata = de.config@.metadata;
                let mut out: Vec<T> = Vec::new();
                let mut i: usize = 0;
                while i < items.len()
                    invariant
                        i <= items@.len(),
                        trees == items_view(items@),
                        de.value@ is List,
                        de.value@->List_1 == trees,
                        metadata == de.config@.metadata,
                        out@.len() == i,
                        first_refused::<T>(trees, metadata, 0) == first_refused::<T>(
                            trees,
                            metadata,
                            i as int,
                        ),
                        forall|j: int|
                            0 <= j < i ==> T::represents(#[trigger] trees[j], metadata, out@[j]),
                    decreases items@.len() - i,
                {
                    let item = ConfiguredValueDe { config: de.config, value: &items[i] };
                    assert(trees[i as int] == items@[i as int].view());
                    match T::extract(item) {
                        Ok(x) => {
                            out.push(x);
                        },
                        Err(e) => {
                            return Err(e.prefixed(decimal_string(i).as_str()));
                        },
                    }
                    i = i + 1;
                }
                Ok(out)
            },
            None => Err(type_mismatch("array", de.value)),
        }
    }
}

/// Whether two texts are the same, letter for letter.
pub fn same_text(a: &str, b: &str) -> (yes: bool)
    ensures
        yes == (a@ == b@),
{
    String::from_str(a) == String::from_str(b)
}

/// The error for a field that the dict does not have, at the root.
pub open spec fn missing(name: Seq<char>) -> ErrorView {
    ErrorView { fault: FaultView::MissingField(name), path: Seq::empty() }
}

/// Reads the field `name` of a structure from a dict. A field that is not
/// there is an error; an error in the field's value has `name` before its
/// path.
pub fn field<T: Extract>(dict: &Dict, config: &Figment, name: &str) -> (r: Result<T, Error>)
    ensures
        !dict@.dom().contains(folded(name@)) ==> (r matches Err(e) && e@ == missing(name@)),
        dict@.dom().contains(folded(name@)) ==> {
            &&& r is Ok == T::accepts(dict@[folded(name@)], config@.metadata)
            &&& r matches Ok(out) ==> T::represents(dict@[folded(name@)], config@.metadata, out)
            &&& r matches Err(e) ==> e@ == under(
                name@,
                T::refusal(dict@[folded(name@)], config@.metadata),
            )
        },
{
    match dict.get(name) {
        Some(value) => match T::extract(ConfiguredValueDe { config, value }) {
            Ok(out) => Ok(out),
            Err(e) => Err(e.prefixed(name)),
        },
        None => Err(Error::new(Fault::MissingField(String::from_str(name)))),
    }
}

/// Reads the field `name` of a structure from a dict, where the structure
/// can do without it: a field that is not there, or is null, is `None`.
pub fn optional_field<T: Extract>(dict: &Dict, config: &Figment, name: &str) -> (r: Result<
    Option<T>,
    Error,
>)
    ensures
        !dict@.dom().contains(folded(name@)) ==> r == Ok::<Option<T>, Error>(None),
        dict@.dom().contains(folded(name@)) ==> {
            &&& r is Ok == Option::<T>::accepts(dict@[folded(name@)], config@.metadata)
            &&& r matches Ok(out) ==> Option::<T>::represents(
                dict@[folded(name@)],
                config@.metadata,
                out,
            )
            &&& r matches Err(e) ==> e@ == under(
                name@,
                T::refusal(dict@[folded(name@)], config@.metadata),
            )
        },
{
    match dict.get(name) {
        Some(value) => match Option::<T>::extract(ConfiguredValueDe { config, value }) {
            Ok(out) => Ok(out),
            Err(e) => Err(e.prefixed(name)),
        },
        None => Ok(None),
    }
}

/// Whether one of `fields` is the key `key`, whatever the case.
pub open spec fn known(fields: Seq<Seq<char>>, key: Seq<char>) -> bool {
    exists|j: int| 0 <= j < fields.len() && folded(#[trigger] fields[j]) == key
}

/// Whether `name` is one of `fields`, whatever the case.
pub fn is_known(fields: &Vec<String>, name: &str) -> (yes: bool)
    ensures
        yes == known(crate::error::texts(fields@), folded(name@)),
{
    let ghost names = crate::error::texts(fields@);
    let mut j: usize = 0;
    while j < fields.len()
        invariant
            j <= fields@.len(),
            names == crate::error::texts(fields@),
            forall|k: int| 0 <= k < j ==> folded(#[trigger] names[k]) != folded(name@),
        decreases fields@.len() - j,
    {
        if crate::key::keys_match(fields[j].as_str(), name) {
            assert(folded(names[j as int]) == folded(name@));
            return true;
        }
        j = j + 1;
    }
    false
}

/// Holds a dict to a closed structure: the first entry whose key is none of
/// `fields` is an error that names the key and the fields.
pub fn deny_unknown_fields(dict: &Dict, fields: &Vec<String>) -> (r: Result<(), Error>)
    ensures
        r is Ok == (forall|k: Seq<char>| #[trigger]
            dict@.dom().contains(k) ==> known(crate::error::texts(fields@), k)),
        r matches Err(e) ==> exists|i: int|
            0 <= i < dict.entries().len() && !known(
                crate::error::texts(fields@),
                #[trigger] crate::value::key_at(dict.entries(), i),
            ) && (forall|j: int|
                0 <= j < i ==> known(
                    crate::error::texts(fields@),
                    #[trigger] crate::value::key_at(dict.entries(), j),
                )) && e@ == (ErrorView {
                fault: FaultView::UnknownField(
                    dict.entries()[i].0@,
                    crate::error::texts(fields@),
                ),
                path: Seq::empty(),
            }),
{
    let ghost names = crate::error::texts(fields@);
    let n = dict.len();
    let mut i: usize = 0;
    while i < n
        invariant
            i <= n,
            n == dict.entries().len(),
            names == crate::error::texts(fields@),
            forall|j: int|
                0 <= j < i ==> known(names, #[trigger] crate::value::key_at(dict.entries(), j)),
        decreases n - i,
    {
        let key = dict.key(i);
        if !is_known(fields, key) {
            let mut list: Vec<String> = Vec::new();
            let mut j: usize = 0;
            while j < fields.len()
                invariant
                    j <= fields@.len(),
                    list@.len() == j,
                    forall|k: int| 0 <= k < j ==> (#[trigger] list@[k])@ == fields@[k]@,
                decreases fields@.len() - j,
            {
                list.push(fields[j].clone());
                j = j + 1;
            }
            assert(crate::error::texts(list@) =~= names);
            assert(dict@.dom().contains(crate::value::key_at(dict.entries(), i as int)));
            return Err(Error::new(Fault::UnknownField(String::from_str(key), list)));
        }
        i = i + 1;
    }
    proof {
        assert forall|k: Seq<char>| #[trigger] dict@.dom().contains(k) implies known(names, k) by {
            crate::value::lemma_entries_lookup(dict.entries(), k);
            let f = crate::value::first_at(dict.entries(), k);
            assert(known(names, crate::value::key_at(dict.entries(), f)));
        }
    }
    Ok(())
}

impl Figment {
    /// What the engine holds for the selected profile at a dotted path.
    pub open spec fn found(self, path: Seq<char>) -> Option<Tree> {
        Tree::Table(default_tag(), self@.projected()).find(folded_segments(path))
    }

    /// A copy of the value at a dotted path, read under the selected
    /// profile. A path that leads nowhere is a missing field.
    pub fn find_value(&self, path: &str) -> (r: Result<Value, Error>)
        ensures
            r is Ok == self.found(path@) is Some,
            r matches Ok(v) ==> Some(v@) == self.found(path@),
            r matches Ok(v) ==> Some(v.layout()) == crate::value::Layout::Table(
                "default"@,
                crate::figment::projected_layout(self.layout(), self.selected()),
            ).find(crate::path::segments(path@)),
            r matches Err(e) ==> e@ == missing(path@),
    {
        let all = self.merged();
        match all.find(path) {
            Some(v) => Ok(v.duplicate()),
            None => Err(Error::new(Fault::MissingField(String::from_str(path)))),
        }
    }

    /// Whether there is a value at a dotted path under the selected
    /// profile.
    pub fn contains(&self, path: &str) -> (yes: bool)
        ensures
            yes == self.found(path@) is Some,
    {
        let all = self.merged();
        all.find(path).is_some()
    }

    /// Extracts a value of type `T` from all that the engine holds for the
    /// selected profile.
    pub fn extract<T: Extract>(&self) -> (r: Result<T, Error>)
        ensures
            r is Ok == T::accepts(
                Tree::Table(default_tag(), self@.projected()),
                self@.metadata,
            ),
            r matches Ok(out) ==> T::represents(
                Tree::Table(default_tag(), self@.projected()),
                self@.metadata,
                out,
            ),
            r matches Err(e) ==> e@ == T::refusal(
                Tree::Table(default_tag(), self@.projected()),
                self@.metadata,
            ),
    {
        let all = self.merged();
        T::extract(ConfiguredValueDe { config: self, value: &all })
    }

    /// Extracts a value of type `T` from the value at a dotted path. A
    /// path that leads nowhere is a missing field; an error of the value has
    /// the path before its own.
    pub fn extract_inner<T: Extract>(&self, path: &str) -> (r: Result<T, Error>)
        ensures
            match self.found(path@) {
                Some(tree) => {
                    &&& r is Ok == T::accepts(tree, self@.metadata)
                    &&& r matches Ok(out) ==> T::represents(tree, self@.metadata, out)
                    &&& r matches Err(e) ==> e@ == under(path@, T::refusal(tree, self@.metadata))
                },
                None => r matches Err(e) && e@ == missing(path@),
            },
    {
        match self.find_value(path) {
            Ok(value) => match T::extract(ConfiguredValueDe { config: self, value: &value }) {
                Ok(out) => Ok(out),
                Err(e) => Err(e.prefixed(path)),
            },
            Err(e) => Err(e),
        }
    }
}

/// Whether `T` reads what a value holds and nothing of its provenance: two
/// values of equal content are accepted alike and read as the same.
pub open spec fn reads_content<T: Extract>() -> bool {
    forall|a: Tree, b: Tree, m: Seq<MetadataView>, n: Seq<MetadataView>, x: T|
        a.content() == b.content() ==> T::accepts(a, m) == T::accepts(b, n) && (
        #[trigger] T::represents(a, m, x)) == (#[trigger] T::represents(b, n, x))
}

/// A boolean, a text and an integer are read from what a value holds,
/// whatever its tags.
pub proof fn lemma_scalars_read_content()
    ensures
        reads_content::<bool>(),
        reads_content::<String>(),
        reads_content::<u8>(),
        reads_content::<u16>(),
        reads_content::<u32>(),
        reads_content::<u64>(),
        reads_content::<usize>(),
        reads_content::<i64>(),
        reads_content::<u128>(),
        reads_content::<i128>(),
        reads_content::<i32>(),
        reads_content::<i16>(),
        reads_content::<i8>(),
        reads_content::<isize>(),
{
}

} // verus!
