//! Values that use what the engine knows of a value's provenance: a value
//! with the identifier of its provider's metadata, a path that resolves
//! against the file that declared it, and a choice between two readings.

use vstd::prelude::*;
use vstd::std_specs::cmp::PartialEqSpec;
use crate::error::error_text;
use crate::error::Error;
use crate::error::ErrorView;
use crate::error::Fault;
use crate::error::FaultView;
use crate::extract::mismatch;
use crate::extract::reads_content;
use crate::extract::same_text;
use crate::extract::type_mismatch;
use crate::extract::ConfiguredValueDe;
use crate::extract::Extract;
use crate::key::folded;
use crate::metadata::record_of;
use crate::metadata::MetadataView;
use crate::tag::default_tag;
use crate::tag::Id;
use crate::tree::Tree;
use crate::value::Dict;
use crate::value::Value;

verus! {

/// The name of the pseudo-structure of a tagged value.
pub open spec fn tagged_name() -> Seq<char> {
    "___figment_tagged_item"@
}

/// The field of a tagged value that holds the metadata identifier.
pub open spec fn tagged_id_field() -> Seq<char> {
    "___figment_tagged_metadata_id"@
}

/// The field of a tagged value that holds the value itself.
pub open spec fn tagged_value_field() -> Seq<char> {
    "___figment_tagged_value"@
}

/// The name of the pseudo-structure of a relative path.
pub open spec fn relative_name() -> Seq<char> {
    "___figment_relative_path_buf"@
}

/// The field of a relative path that holds the path of the declaring file.
pub open spec fn relative_metadata_field() -> Seq<char> {
    "___figment_relative_metadata_path"@
}

/// The field of a relative path that holds the path itself.
pub open spec fn relative_path_field() -> Seq<char> {
    "___figment_relative_path"@
}

/// The two fields of each pseudo-structure are different keys, and the two
/// pseudo-structures have different names.
pub proof fn lemma_magic_names()
    ensures
        folded(tagged_id_field()) != folded(tagged_value_field()),
        folded(relative_metadata_field()) != folded(relative_path_field()),
        tagged_name() != relative_name(),
{
    reveal_strlit("___figment_tagged_item");
    reveal_strlit("___figment_tagged_metadata_id");
    reveal_strlit("___figment_tagged_value");
    reveal_strlit("___figment_relative_path_buf");
    reveal_strlit("___figment_relative_metadata_path");
    reveal_strlit("___figment_relative_path");
    assert(folded(tagged_id_field()).len() != folded(tagged_value_field()).len());
    assert(folded(relative_metadata_field()).len() != folded(relative_path_field()).len());
    assert(tagged_name().len() != relative_name().len());
}

/// The texts of a list of field names.
pub open spec fn strs(names: Seq<&'static str>) -> Seq<Seq<char>> {
    Seq::new(names.len(), |i: int| names[i]@)
}

/// A type that the extraction bridge hands a pseudo-structure made for it:
/// a dict of its own fields, the last of which holds the value itself.
pub trait Magic: Sized {
    /// The name of the pseudo-structure.
    spec fn name_spec() -> Seq<char>;

    /// The fields of the pseudo-structure.
    spec fn fields_spec() -> Seq<Seq<char>>;

    /// The pseudo-structure made for a value, read with the given metadata.
    spec fn synthetic(tree: Tree, metadata: Seq<MetadataView>) -> Map<Seq<char>, Tree>;

    /// The name of the pseudo-structure.
    fn name() -> (n: &'static str)
        ensures
            n@ == Self::name_spec(),
    ;

    /// The fields of the pseudo-structure. The last one holds the value.
    fn fields() -> (f: Vec<&'static str>)
        ensures
            f@.len() >= 1,
            strs(f@) == Self::fields_spec(),
    ;

    /// Makes the pseudo-structure for a value.
    fn deserialize_from(de: ConfiguredValueDe) -> (d: Dict)
        ensures
            d@ == Self::synthetic(de.value@, de.config@.metadata),
    ;
}

/// The pseudo-structure of a tagged value: the identifier of the value's
/// tag, where it has one, and the value.
pub open spec fn tagged_synthetic(tree: Tree) -> Map<Seq<char>, Tree> {
    let base = match tree.tag().metadata_id {
        Some(id) => Map::<Seq<char>, Tree>::empty().insert(
            folded(tagged_id_field()),
            Tree::Number(default_tag(), id.0 as int),
        ),
        None => Map::<Seq<char>, Tree>::empty(),
    };
    base.insert(folded(tagged_value_field()), tree)
}

/// The path of the file that declared a value: the file of the metadata
/// that the value's tag names, where the tag names one and it is of a file.
pub open spec fn declaring_file(tree: Tree, metadata: Seq<MetadataView>) -> Option<Seq<char>> {
    match tree.tag().metadata_id {
        Some(id) => match record_of(metadata, id) {
            Some(m) => m.file_path(),
            None => None,
        },
        None => None,
    }
}

/// The pseudo-structure of a relative path: the path of the declaring
/// file, where there is one, and the value.
pub open spec fn relative_synthetic(tree: Tree, metadata: Seq<MetadataView>) -> Map<
    Seq<char>,
    Tree,
> {
    let base = match declaring_file(tree, metadata) {
        Some(p) => Map::<Seq<char>, Tree>::empty().insert(
            folded(relative_metadata_field()),
            Tree::Text(default_tag(), p, false),
        ),
        None => Map::<Seq<char>, Tree>::empty(),
    };
    base.insert(folded(relative_path_field()), tree)
}

/// What the bridge hands a target that asks for a structure of the given
/// name and fields: for the signature of a tagged value or of a relative
/// path the pseudo-structure, as a dict with the default tag; for any other
/// the value as it is.
pub open spec fn intercepted(
    tree: Tree,
    metadata: Seq<MetadataView>,
    name: Seq<char>,
    fields: Seq<Seq<char>>,
) -> Tree {
    if name == tagged_name() && fields == seq![tagged_id_field(), tagged_value_field()] {
        Tree::Table(default_tag(), tagged_synthetic(tree))
    } else if name == relative_name() && fields == seq![
        relative_metadata_field(),
        relative_path_field(),
    ] {
        Tree::Table(default_tag(), relative_synthetic(tree, metadata))
    } else {
        tree
    }
}

/// What is under a field of a dict; the value itself where it is no dict or
/// has no such field.
pub open spec fn payload_tree(tree: Tree, field: Seq<char>) -> Tree {
    if tree is Table && tree->Table_1.dom().contains(folded(field)) {
        tree->Table_1[folded(field)]
    } else {
        tree
    }
}

/// Takes a value out of its envelope: what is under `field` where the value
/// is a dict that has it, else the value itself.
pub fn payload_of<'a>(value: &'a Value, field: &str) -> (payload: &'a Value)
    ensures
        payload@ == payload_tree(value@, field@),
{
    match value.as_dict() {
        Some(d) => match d.get(field) {
            Some(v) => v,
            None => value,
        },
        None => value,
    }
}

/// Whether two lists of field names are the same.
pub fn same_fields(a: &Vec<&'static str>, b: &Vec<&'static str>) -> (yes: bool)
    ensures
        yes == (strs(a@) == strs(b@)),
{
    if a.len() != b.len() {
        assert(strs(a@).len() != strs(b@).len());
        return false;
    }
    let mut i: usize = 0;
    while i < a.len()
        invariant
            a@.len() == b@.len(),
            i <= a@.len(),
            forall|j: int| 0 <= j < i ==> (#[trigger] a@[j])@ == b@[j]@,
        decreases a@.len() - i,
    {
        if !same_text(a[i], b[i]) {
            assert(strs(a@)[i as int] != strs(b@)[i as int]);
            return false;
        }
        i = i + 1;
    }
    assert(strs(a@) =~= strs(b@));
    true
}

impl<'c> ConfiguredValueDe<'c> {
    /// The bridge's answer to a target that asks for a structure: the
    /// pseudo-structure where the name and fields are those of a tagged
    /// value or of a relative path, else a copy of the value.
    pub fn deserialize_struct(&self, name: &str, fields: &Vec<&'static str>) -> (v: Value)
        ensures
            v@ == intercepted(self.value@, self.config@.metadata, name@, strs(fields@)),
    {
        proof {
            lemma_magic_names();
        }
        if same_text(name, Tagged::<()>::name()) && same_fields(
            fields,
            &Tagged::<()>::fields(),
        ) {
            let de = ConfiguredValueDe { config: self.config, value: self.value };
            Value::from_dict(Tagged::<()>::deserialize_from(de))
        } else if same_text(name, RelativePathBuf::name()) && same_fields(
            fields,
            &RelativePathBuf::fields(),
        ) {
            let de = ConfiguredValueDe { config: self.config, value: self.value };
            Value::from_dict(RelativePathBuf::deserialize_from(de))
        } else {
            self.value.duplicate()
        }
    }
}

/// A value of type `T` with the identifier of the metadata of the provider
/// that the value came from.
#[derive(Debug, Clone)]
pub struct Tagged<T> {
    metadata_id: Option<Id>,
    value: T,
}

impl<T> Tagged<T> {
    /// The identifier, as specifications see it.
    pub closed spec fn tag_id(&self) -> Option<Id> {
        self.metadata_id
    }

    /// The value, as specifications see it.
    pub closed spec fn inner(&self) -> T {
        self.value
    }

    /// The identifier of the metadata of the provider that the value came
    /// from; none for a value that no provider produced.
    pub fn metadata_id(&self) -> (id: Option<Id>)
        ensures
            id == self.tag_id(),
    {
        self.metadata_id
    }

    /// Gives up the value.
    pub fn into_inner(self) -> (value: T)
        ensures
            value == self.inner(),
    {
        self.value
    }

    /// The value.
    pub fn value(&self) -> (value: &T)
        ensures
            *value == self.inner(),
    {
        &self.value
    }

    /// A value with the identifier of the metadata of its provider, if any.
    pub fn with_id(metadata_id: Option<Id>, value: T) -> (tagged: Tagged<T>)
        ensures
            tagged.tag_id() == metadata_id,
            tagged.inner() == value,
    {
        Tagged { metadata_id, value }
    }

    /// A value that no provider produced, as specifications see it.
    pub closed spec fn plain(value: T) -> Tagged<T> {
        Tagged { metadata_id: None, value }
    }

    /// What a value that no provider produced holds.
    pub proof fn lemma_plain(value: T)
        ensures
            Self::plain(value).tag_id() is None,
            Self::plain(value).inner() == value,
    {
    }
}

impl<T: PartialEq> PartialEq for Tagged<T> {
    /// Two tagged values are equal when their values are, whatever their
    /// identifiers.
    fn eq(&self, other: &Self) -> (r: bool) {
        self.value == other.value
    }
}

impl<T: PartialEq> vstd::std_specs::cmp::PartialEqSpecImpl for Tagged<T> {
    open spec fn obeys_eq_spec() -> bool {
        T::obeys_eq_spec()
    }

    open spec fn eq_spec(&self, other: &Self) -> bool {
        self.inner().eq_spec(&other.inner())
    }
}

impl<T> From<T> for Tagged<T> {
    fn from(value: T) -> (tagged: Tagged<T>) {
        Tagged { metadata_id: None, value }
    }
}

impl<T> vstd::std_specs::convert::FromSpecImpl<T> for Tagged<T> {
    open spec fn obeys_from_spec() -> bool {
        true
    }

    open spec fn from_spec(value: T) -> Tagged<T> {
        Tagged::plain(value)
    }
}

impl<T> core::ops::Deref for Tagged<T> {
    type Target = T;

    fn deref(&self) -> (value: &T)
        ensures
            *value == self.inner(),
    {
        &self.value
    }
}

impl<T> Magic for Tagged<T> {
    open spec fn name_spec() -> Seq<char> {
        tagged_name()
    }

    open spec fn fields_spec() -> Seq<Seq<char>> {
        seq![tagged_id_field(), tagged_value_field()]
    }

    open spec fn synthetic(tree: Tree, metadata: Seq<MetadataView>) -> Map<Seq<char>, Tree> {
        tagged_synthetic(tree)
    }

    fn name() -> (n: &'static str) {
        "___figment_tagged_item"
    }

    fn fields() -> (f: Vec<&'static str>) {
        let mut f: Vec<&'static str> = Vec::new();
        f.push("___figment_tagged_metadata_id");
        f.push("___figment_tagged_value");
        assert(strs(f@) =~= seq![tagged_id_field(), tagged_value_field()]);
        f
    }

    /// The pseudo-structure of a tagged value: the identifier of the
    /// value's tag, as a number, where it has one, and a copy of the value.
    fn deserialize_from(de: ConfiguredValueDe) -> (d: Dict)
        ensures
            d@ == tagged_synthetic(de.value@),
            d.entries().len() == (if de.value@.tag().metadata_id is Some {
                2int
            } else {
                1int
            }),
            de.value@.tag().metadata_id is Some ==> d.entries()[0].0@ == tagged_id_field(),
            d.entries().last().0@ == tagged_value_field(),
            d.entries().last().1.view() == de.value@,
    {
        proof {
            lemma_magic_names();
        }
        let mut map = Dict::new();
        if let Some(id) = de.value.metadata_id() {
            map.insert(
                String::from_str("___figment_tagged_metadata_id"),
                Value::from_unsigned(id.0 as u128),
            );
        }
        map.insert(String::from_str("___figment_tagged_value"), de.value.duplicate());
        map
    }
}

impl<T: Extract> Extract for Tagged<T> {
    open spec fn accepts(tree: Tree, metadata: Seq<MetadataView>) -> bool {
        T::accepts(tree, metadata)
    }

    /// The identifier is that of the value's tag, and the value is what `T`
    /// reads.
    open spec fn represents(tree: Tree, metadata: Seq<MetadataView>, out: Tagged<T>) -> bool {
        out.tag_id() == tree.tag().metadata_id && T::represents(tree, metadata, out.inner())
    }

    open spec fn refusal(tree: Tree, metadata: Seq<MetadataView>) -> ErrorView {
        T::refusal(tree, metadata)
    }

    fn extract(de: ConfiguredValueDe) -> (r: Result<Tagged<T>, Error>)
        ensures
            r matches Ok(out) ==> out.tag_id() == de.value@.tag().metadata_id,
    {
        proof {
            lemma_magic_names();
        }
        let fields = Self::fields();
        assert(strs(fields@).len() == fields@.len());
        assert(Self::fields_spec().len() == 2);
        let envelope = de.deserialize_struct(Self::name(), &fields);
        assert(strs(fields@)[0] == fields@[0]@);
        assert(strs(fields@)[1] == fields@[1]@);
        let metadata_id = match envelope.as_dict() {
            Some(d) => match d.get(fields[0]) {
                Some(v) => match v.to_num() {
                    Some(n) => match n.to_u64() {
                        Some(n) => Some(Id(n)),
                        None => None,
                    },
                    None => None,
                },
                None => None,
            },
            None => None,
        };
        let payload = payload_of(&envelope, fields[1]);
        match T::extract(ConfiguredValueDe { config: de.config, value: payload }) {
            Ok(value) => Ok(Tagged { metadata_id, value }),
            Err(e) => Err(e),
        }
    }
}

/// Whether a path has a root, as `std::path::Path::has_root` says on the
/// platform that the library is built for: on Unix, whether it begins with
/// `/`.
pub uninterp spec fn path_has_root(path: Seq<char>) -> bool;

/// The path without its last component, as `std::path::Path::parent` gives
/// it on the platform that the library is built for; none for a path that
/// ends in a root or is empty.
pub uninterp spec fn path_parent(path: Seq<char>) -> Option<Seq<char>>;

/// A path joined onto another, as `std::path::Path::join` does it on the
/// platform that the library is built for.
pub uninterp spec fn path_joined(root: Seq<char>, path: Seq<char>) -> Seq<char>;

/// Whether the path has a root.
///
/// Trusted: calls `std::path::Path::has_root` on the path and returns its
/// answer, which depends on the text alone.
#[verifier::external_body]
fn has_root(path: &str) -> (yes: bool)
    ensures
        yes == path_has_root(path@),
{
    std::path::Path::new(path).has_root()
}

/// Whether the path is that of a directory on disk.
///
/// Trusted: calls `std::path::Path::is_dir`. Nothing is claimed of the
/// answer: it depends on what is on disk when it is asked.
#[verifier::external_body]
fn is_dir(path: &str) -> bool {
    std::path::Path::new(path).is_dir()
}

/// The path without its last component.
///
/// Trusted: calls `std::path::Path::parent` on the path and returns what
/// it gives, which depends on the text alone.
#[verifier::external_body]
fn parent(path: &str) -> (p: Option<String>)
    ensures
        p is Some == path_parent(path@) is Some,
        p matches Some(s) ==> Some(s@) == path_parent(path@),
{
    match std::path::Path::new(path).parent() {
        Some(p) => Some(p.to_string_lossy().into_owned()),
        None => None,
    }
}

/// The path `path` joined onto `root`.
///
/// Trusted: calls `std::path::Path::join` and returns what it gives, which
/// depends on the two texts alone.
#[verifier::external_body]
fn join(root: &str, path: &str) -> (p: String)
    ensures
        p@ == path_joined(root@, path@),
{
    std::path::Path::new(root).join(path).to_string_lossy().into_owned()
}

/// Where a path resolves to: itself where it has a root or no file declared
/// it; else it is joined onto the declaring path where that is a directory,
/// onto its parent where it is not, and stays itself where there is no
/// parent.
pub open spec fn resolved(
    original: Seq<char>,
    metadata_path: Option<Seq<char>>,
    root_is_dir: bool,
) -> Seq<char> {
    if path_has_root(original) {
        original
    } else {
        match metadata_path {
            None => original,
            Some(root) => {
                let base = if root_is_dir {
                    Some(root)
                } else {
                    path_parent(root)
                };
                match base {
                    Some(b) => path_joined(b, original),
                    None => original,
                }
            },
        }
    }
}

/// A path that knows the path of the file it was configured in, if any.
#[derive(Debug, Clone)]
pub struct RelativePathBuf {
    metadata_path: Option<String>,
    path: String,
}

impl RelativePathBuf {
    /// The path as it was declared, as specifications see it.
    pub closed spec fn original_text(&self) -> Seq<char> {
        self.path@
    }

    /// The path of the declaring file, as specifications see it.
    pub closed spec fn metadata_text(&self) -> Option<Seq<char>> {
        match self.metadata_path {
            Some(p) => Some(p@),
            None => None,
        }
    }

    /// A path that no file declared.
    pub fn from(path: &str) -> (p: RelativePathBuf)
        ensures
            p.original_text() == path@,
            p.metadata_text() is None,
    {
        RelativePathBuf { metadata_path: None, path: String::from_str(path) }
    }

    /// The path as it was declared, without modification.
    pub fn original(&self) -> (path: &str)
        ensures
            path@ == self.original_text(),
    {
        self.path.as_str()
    }

    /// The path of the file this path was declared in, if any.
    pub fn metadata_path(&self) -> (path: Option<&str>)
        ensures
            path is Some == self.metadata_text() is Some,
            path matches Some(p) ==> Some(p@) == self.metadata_text(),
    {
        match &self.metadata_path {
            Some(p) => Some(p.as_str()),
            None => None,
        }
    }

    /// This path relative to the file it was declared in, given whether the
    /// declaring path is a directory.
    pub fn relative_from(&self, root_is_dir: bool) -> (path: String)
        ensures
            path@ == resolved(self.original_text(), self.metadata_text(), root_is_dir),
    {
        if has_root(self.original()) {
            return self.path.clone();
        }
        match self.metadata_path() {
            None => self.path.clone(),
            Some(root) => {
                let base = if root_is_dir {
                    Some(String::from_str(root))
                } else {
                    parent(root)
                };
                match base {
                    Some(b) => join(b.as_str(), self.original()),
                    None => self.path.clone(),
                }
            },
        }
    }

    /// This path relative to the file it was declared in, if any: the
    /// original where it has a root or no file declared it.
    pub fn relative(&self) -> (path: String)
        ensures
            path@ == resolved(self.original_text(), self.metadata_text(), true) || path@
                == resolved(self.original_text(), self.metadata_text(), false),
            path_has_root(self.original_text()) || self.metadata_text() is None ==> path@
                == self.original_text(),
    {
        self.relative_from(self.declared_in_dir())
    }

    /// Whether two paths resolve to the same path, given of each whether
    /// its declaring path is a directory.
    pub fn same_from(&self, other: &RelativePathBuf, self_is_dir: bool, other_is_dir: bool) -> (yes:
        bool)
        ensures
            yes == (resolved(self.original_text(), self.metadata_text(), self_is_dir) == resolved(
                other.original_text(),
                other.metadata_text(),
                other_is_dir,
            )),
    {
        self.relative_from(self_is_dir) == other.relative_from(other_is_dir)
    }

    /// Whether the declaring path is a directory on disk; not so where no
    /// file declared the path.
    fn declared_in_dir(&self) -> bool {
        match self.metadata_path() {
            Some(root) => is_dir(root),
            None => false,
        }
    }

    /// Whether two paths resolve to the same path, as the disk stands.
    pub fn same(&self, other: &RelativePathBuf) -> (yes: bool)
        ensures
            exists|p: bool, q: bool|
                yes == (#[trigger] resolved(self.original_text(), self.metadata_text(), p)
                    == #[trigger] resolved(other.original_text(), other.metadata_text(), q)),
    {
        self.same_from(other, self.declared_in_dir(), other.declared_in_dir())
    }

    /// A path declared in the file at `metadata_path`, if any.
    pub fn declared_in(path: &str, metadata_path: Option<&str>) -> (p: RelativePathBuf)
        ensures
            p.original_text() == path@,
            p.metadata_text() == (match metadata_path {
                Some(m) => Some(m@),
                None => None,
            }),
    {
        RelativePathBuf {
            metadata_path: match metadata_path {
                Some(m) => Some(String::from_str(m)),
                None => None,
            },
            path: String::from_str(path),
        }
    }
}

impl PartialEq for RelativePathBuf {
    /// Two paths are equal when they resolve to the same path, as the disk
    /// stands when they are compared.
    fn eq(&self, other: &Self) -> (r: bool) {
        self.same(other)
    }
}

impl vstd::std_specs::cmp::PartialEqSpecImpl for RelativePathBuf {
    /// The answer depends on what is on disk, so `==` follows no
    /// specification function.
    open spec fn obeys_eq_spec() -> bool {
        false
    }

    open spec fn eq_spec(&self, other: &Self) -> bool {
        resolved(self.original_text(), self.metadata_text(), false) == resolved(
            other.original_text(),
            other.metadata_text(),
            false,
        )
    }
}

impl Magic for RelativePathBuf {
    open spec fn name_spec() -> Seq<char> {
        relative_name()
    }

    open spec fn fields_spec() -> Seq<Seq<char>> {
        seq![relative_metadata_field(), relative_path_field()]
    }

    open spec fn synthetic(tree: Tree, metadata: Seq<MetadataView>) -> Map<Seq<char>, Tree> {
        relative_synthetic(tree, metadata)
    }

    fn name() -> (n: &'static str) {
        "___figment_relative_path_buf"
    }

    fn fields() -> (f: Vec<&'static str>) {
        let mut f: Vec<&'static str> = Vec::new();
        f.push("___figment_relative_metadata_path");
        f.push("___figment_relative_path");
        assert(strs(f@) =~= seq![relative_metadata_field(), relative_path_field()]);
        f
    }

    /// The pseudo-structure of a relative path: the path of the file of
    /// the provider that the value's tag names, as a text, where there is
    /// one, and a copy of the value.
    fn deserialize_from(de: ConfiguredValueDe) -> (d: Dict)
        ensures
            d@ == relative_synthetic(de.value@, de.config@.metadata),
            d.entries().len() == (if declaring_file(de.value@, de.config@.metadata) is Some {
                2int
            } else {
                1int
            }),
            declaring_file(de.value@, de.config@.metadata) is Some ==> d.entries()[0].0@
                == relative_metadata_field(),
            d.entries().last().0@ == relative_path_field(),
            d.entries().last().1.view() == de.value@,
    {
        proof {
            lemma_magic_names();
        }
        let config = de.config;
        let metadata_path = match de.value.metadata_id() {
            Some(id) => match config.get_metadata(id) {
                Some(metadata) => metadata.file_path(),
                None => None,
            },
            None => None,
        };
        let mut map = Dict::new();
        if let Some(path) = metadata_path {
            map.insert(String::from_str("___figment_relative_metadata_path"), Value::from_str(path));
        }
        map.insert(String::from_str("___figment_relative_path"), de.value.duplicate());
        map
    }
}

impl Extract for RelativePathBuf {
    open spec fn accepts(tree: Tree, metadata: Seq<MetadataView>) -> bool {
        tree is Text
    }

    /// The path is the text, and the declaring path is that of the file of
    /// the value's provider.
    open spec fn represents(tree: Tree, metadata: Seq<MetadataView>, out: RelativePathBuf) -> bool {
        &&& tree is Text
        &&& out.original_text() == tree->Text_1
        &&& out.metadata_text() == declaring_file(tree, metadata)
    }

    open spec fn refusal(tree: Tree, metadata: Seq<MetadataView>) -> ErrorView {
        mismatch("path string"@, tree)
    }

    fn extract(de: ConfiguredValueDe) -> (r: Result<RelativePathBuf, Error>)
        ensures
            r matches Ok(out) ==> Some(out.original_text()) == (match de.value@ {
                Tree::Text(_, s, _) => Some(s),
                _ => None,
            }) && out.metadata_text() == declaring_file(de.value@, de.config@.metadata),
    {
        proof {
            lemma_magic_names();
        }
        let fields = Self::fields();
        assert(strs(fields@).len() == fields@.len());
        assert(Self::fields_spec().len() == 2);
        let envelope = de.deserialize_struct(Self::name(), &fields);
        assert(strs(fields@)[0] == fields@[0]@);
        assert(strs(fields@)[1] == fields@[1]@);
        let metadata_path = match envelope.as_dict() {
            Some(d) => match d.get(fields[0]) {
                Some(v) => match v.as_str() {
                    Some(s) => Some(String::from_str(s)),
                    None => None,
                },
                None => None,
            },
            None => None,
        };
        let payload = payload_of(&envelope, fields[1]);
        match payload.as_str() {
            Some(path) => Ok(RelativePathBuf { metadata_path, path: String::from_str(path) }),
            None => Err(type_mismatch("path string", de.value)),
        }
    }
}

/// Either a magic value `A` or any other value `B`: whichever the value
/// can be read as, `A` first.
#[derive(Debug, Clone, PartialEq, Eq, PartialOrd, Ord, Hash)]
pub enum Either<A, B> {
    /// The "left" variant.
    Left(A),
    /// The "right" variant.
    Right(B),
}

/// The value that the second reading of an `Either` is made of: what the
/// bridge hands out for the signature of `A`, taken out of its envelope.
pub open spec fn either_payload<A: Magic>(tree: Tree, metadata: Seq<MetadataView>) -> Tree {
    payload_tree(
        intercepted(tree, metadata, A::name_spec(), A::fields_spec()),
        A::fields_spec().last(),
    )
}

/// The error of a value that reads as neither: both errors in one message.
pub open spec fn neither(first: ErrorView, second: ErrorView) -> ErrorView {
    ErrorView {
        fault: FaultView::InvalidValue(error_text(first) + "; "@ + error_text(second)),
        path: Seq::empty(),
    }
}

/// Makes one error of the errors of two readings.
pub fn combine(first: &Error, second: &Error) -> (e: Error)
    ensures
        e@ == neither(first@, second@),
{
    let mut text = first.message();
    text.append("; ");
    text.append(second.message().as_str());
    Error::new(Fault::InvalidValue(text))
}

impl<A: Magic + Extract, B: Extract> Extract for Either<A, B> {
    open spec fn accepts(tree: Tree, metadata: Seq<MetadataView>) -> bool {
        A::accepts(tree, metadata) || B::accepts(either_payload::<A>(tree, metadata), metadata)
    }

    /// `Left` with what `A` reads where `A` accepts the value; else `Right`
    /// with what `B` reads of the payload.
    open spec fn represents(tree: Tree, metadata: Seq<MetadataView>, out: Either<A, B>) -> bool {
        match out {
            Either::Left(a) => A::accepts(tree, metadata) && A::represents(tree, metadata, a),
            Either::Right(b) => !A::accepts(tree, metadata) && B::represents(
                either_payload::<A>(tree, metadata),
                metadata,
                b,
            ),
        }
    }

    open spec fn refusal(tree: Tree, metadata: Seq<MetadataView>) -> ErrorView {
        neither(
            A::refusal(tree, metadata),
            B::refusal(either_payload::<A>(tree, metadata), metadata),
        )
    }

    /// Reads the value as `A`; where that fails, reads as `B` what the
    /// bridge hands out for the signature of `A`, taken out of its
    /// envelope; where that fails too, the error holds both errors.
    fn extract(de: ConfiguredValueDe) -> (r: Result<Either<A, B>, Error>)
        ensures
            A::accepts(de.value@, de.config@.metadata) ==> (r matches Ok(Either::Left(a))
                && A::represents(de.value@, de.config@.metadata, a)),
            !A::accepts(de.value@, de.config@.metadata) && B::accepts(
                either_payload::<A>(de.value@, de.config@.metadata),
                de.config@.metadata,
            ) ==> (r matches Ok(Either::Right(b)) && B::represents(
                either_payload::<A>(de.value@, de.config@.metadata),
                de.config@.metadata,
                b,
            )),
            !A::accepts(de.value@, de.config@.metadata) && !B::accepts(
                either_payload::<A>(de.value@, de.config@.metadata),
                de.config@.metadata,
            ) ==> (r matches Err(e) && e@ == neither(
                A::refusal(de.value@, de.config@.metadata),
                B::refusal(
                    either_payload::<A>(de.value@, de.config@.metadata),
                    de.config@.metadata,
                ),
            )),
    {
        let fields = A::fields();
        let value = de.deserialize_struct(A::name(), &fields);
        match A::extract(ConfiguredValueDe { config: de.config, value: de.value }) {
            Ok(a) => Ok(Either::Left(a)),
            Err(a_err) => {
                let last = fields[fields.len() - 1];
                assert(strs(fields@).last() == last@);
                let payload = payload_of(&value, last);
                match B::extract(ConfiguredValueDe { config: de.config, value: payload }) {
                    Ok(b) => Ok(Either::Right(b)),
                    Err(b_err) => Err(combine(&a_err, &b_err)),
                }
            },
        }
    }
}

/// Extracting a tagged value reads the payload as the payload's own type
/// does, and keeps the identifier of the value's tag beside it.
pub proof fn lemma_tagged_reads_payload<T: Extract>(
    tree: Tree,
    metadata: Seq<MetadataView>,
    out: Tagged<T>,
)
    requires
        Tagged::<T>::represents(tree, metadata, out),
    ensures
        T::represents(tree, metadata, out.inner()),
        out.tag_id() == tree.tag().metadata_id,
        Tagged::<T>::accepts(tree, metadata) == T::accepts(tree, metadata),
{
}

/// The second reading of an `Either` whose first is a tagged value or a
/// relative path is made of the value itself.
pub proof fn lemma_either_payload(tree: Tree, metadata: Seq<MetadataView>)
    ensures
        either_payload::<Tagged<bool>>(tree, metadata) == tree,
        either_payload::<RelativePathBuf>(tree, metadata) == tree,
{
    lemma_magic_names();
    let f = seq![tagged_id_field(), tagged_value_field()];
    assert(f.last() == tagged_value_field());
    let g = seq![relative_metadata_field(), relative_path_field()];
    assert(g.last() == relative_path_field());
}

/// An integer that fits reads as the tagged integer, a text as the text:
/// of an integer in range the choice between a tagged `usize` and a text
/// is `Left`, of a text it is `Right` with that text.
pub proof fn lemma_either_tagged_or_text(
    tree: Tree,
    metadata: Seq<MetadataView>,
    out: Either<Tagged<usize>, String>,
)
    requires
        Either::<Tagged<usize>, String>::represents(tree, metadata, out),
    ensures
        tree is Number ==> out is Left && out->Left_0.inner() == tree->Number_1,
        tree is Text ==> out is Right && (out->Right_0)@ == tree->Text_1,
        tree is Text ==> Either::<Tagged<usize>, String>::accepts(tree, metadata),
        tree is Number && 0 <= tree->Number_1 <= usize::MAX ==> Either::<
            Tagged<usize>,
            String,
        >::accepts(tree, metadata),
{
    lemma_magic_names();
    let f = seq![tagged_id_field(), tagged_value_field()];
    assert(f.last() == tagged_value_field());
    assert(either_payload::<Tagged<usize>>(tree, metadata) == tree);
}

/// An array of bytes reads as the bytes: of an array the choice between a
/// relative path and a list of bytes is `Right`, with the items of the
/// array.
pub proof fn lemma_either_path_or_bytes(
    tree: Tree,
    metadata: Seq<MetadataView>,
    out: Either<RelativePathBuf, Vec<u8>>,
)
    requires
        Either::<RelativePathBuf, Vec<u8>>::represents(tree, metadata, out),
    ensures
        tree is Text ==> out is Left && out->Left_0.original_text() == tree->Text_1,
        tree is List ==> out is Right && (out->Right_0)@.len() == tree->List_1.len() && forall|
            i: int,
        |
            0 <= i < tree->List_1.len() ==> (#[trigger] tree->List_1[i]) is Number
                && tree->List_1[i]->Number_1 == (out->Right_0)@[i],
{
    lemma_either_payload(tree, metadata);
}

/// Round trip: where a tagged value was extracted and a value of the same
/// content is extracted again, as after merging the extracted value back in,
/// the second extraction succeeds, and each payload is what the other value
/// holds. This is for payload types that read no provenance; the
/// identifiers of the two tagged values may differ.
pub proof fn lemma_tagged_round_trip<T: Extract>(
    tree: Tree,
    metadata: Seq<MetadataView>,
    out: Tagged<T>,
    again: Tree,
    later: Seq<MetadataView>,
    second: Tagged<T>,
)
    requires
        reads_content::<T>(),
        Tagged::<T>::accepts(tree, metadata),
        Tagged::<T>::represents(tree, metadata, out),
        again.content() == tree.content(),
        Tagged::<T>::represents(again, later, second),
    ensures
        Tagged::<T>::accepts(again, later),
        T::represents(tree, metadata, second.inner()),
        T::represents(again, later, out.inner()),
{
    assert(T::represents(tree, metadata, out.inner()));
    assert(T::represents(again, later, second.inner()));
    assert(T::represents(tree, metadata, second.inner()) == T::represents(
        again,
        later,
        second.inner(),
    ));
    assert(T::represents(tree, metadata, out.inner()) == T::represents(
        again,
        later,
        out.inner(),
    ));
}

} // verus!
