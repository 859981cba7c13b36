//! Paths, how they are shown, and what an image's name tells about it.

use vstd::prelude::*;
use vstd::string::StringSliceAdditionalSpecFns;
use vstd::utf8::encode_utf8;

verus! {

/// The character that is put between the names of a path.
#[derive(Clone, Copy, PartialEq, Eq, Structural)]
pub enum Separator {
    /// `/`.
    Slash,
    /// `\`, besides which `/` separates names too.
    Backslash,
}

/// The character that is put between names.
pub open spec fn separator_char(separator: Separator) -> char {
    match separator {
        Separator::Slash => '/',
        Separator::Backslash => '\\',
    }
}

/// `c` separates names.
pub open spec fn is_separator(c: char, separator: Separator) -> bool {
    c == '/' || c == separator_char(separator)
}

/// A component of a path.
pub struct Name {
    /// What was written between the component before and this one: separators, and `.` for the
    /// same directory.
    pub gap: String,
    /// The bytes by which the operating system knows the component.
    pub bytes: Vec<u8>,
    /// How the component is shown, with replacement characters for what is no Unicode text.
    pub text: String,
}

/// What kind of prefix a path has.
#[derive(Clone, Copy, PartialEq, Eq, Structural)]
pub enum PrefixKind {
    /// The letter of a drive, `C:`. The root directory may be written behind it.
    Drive,
    /// What begins with `\\?\`: the rest is taken word for word.
    Verbatim,
    /// A share or a device. It implies the root directory.
    Other,
}

/// What may stand before the root directory.
pub struct Prefix {
    pub kind: PrefixKind,
    /// Which prefix it is, however it was written.
    pub identity: Vec<u8>,
    /// The prefix as it was written, in the bytes of the operating system.
    pub bytes: Vec<u8>,
    /// How the prefix is shown.
    pub text: String,
}

/// A file system path, as it was given.
///
/// It is a prefix (`C:`), the root directory, the components from the outermost inwards, and
/// what was written behind the last of them. Two paths lead to the same place where these are
/// the same; the rest keeps the path as it was written.
pub struct OsPath {
    pub prefix: Option<Prefix>,
    /// The root directory as it was written; empty where the prefix implies it.
    pub root: Option<String>,
    /// The components.
    pub names: Vec<Name>,
    /// What was written behind the last component.
    pub trail: String,
}

/// The mathematical value of a [`Name`].
#[verifier::ext_equal]
pub struct NameView {
    pub gap: Seq<char>,
    pub bytes: Seq<u8>,
    pub text: Seq<char>,
}

impl View for Name {
    type V = NameView;

    open spec fn view(&self) -> NameView {
        NameView { gap: self.gap@, bytes: self.bytes@, text: self.text@ }
    }
}

/// The mathematical value of a [`Prefix`].
#[verifier::ext_equal]
pub struct PrefixView {
    pub kind: PrefixKind,
    pub identity: Seq<u8>,
    pub bytes: Seq<u8>,
    pub text: Seq<char>,
}

impl View for Prefix {
    type V = PrefixView;

    open spec fn view(&self) -> PrefixView {
        PrefixView {
            kind: self.kind,
            identity: self.identity@,
            bytes: self.bytes@,
            text: self.text@,
        }
    }
}

/// The mathematical value of an [`OsPath`].
#[verifier::ext_equal]
pub struct PathView {
    pub prefix: Option<PrefixView>,
    pub root: Option<Seq<char>>,
    pub names: Seq<NameView>,
    pub trail: Seq<char>,
}

/// The value of a prefix that may be missing.
pub open spec fn prefix_option_view(prefix: Option<Prefix>) -> Option<PrefixView> {
    match prefix {
        Some(p) => Some(p@),
        None => None,
    }
}

/// The value of a text that may be missing.
pub open spec fn text_option_view(s: Option<String>) -> Option<Seq<char>> {
    match s {
        Some(s) => Some(s@),
        None => None,
    }
}

/// The values of a sequence of components.
pub open spec fn names_view(names: Seq<Name>) -> Seq<NameView> {
    Seq::new(names.len(), |i: int| names[i]@)
}

impl View for OsPath {
    type V = PathView;

    open spec fn view(&self) -> PathView {
        PathView {
            prefix: prefix_option_view(self.prefix),
            root: text_option_view(self.root),
            names: names_view(self.names@),
            trail: self.trail@,
        }
    }
}

/// The bytes of a sequence of components.
pub open spec fn name_bytes(names: Seq<NameView>) -> Seq<Seq<u8>> {
    Seq::new(names.len(), |i: int| names[i].bytes)
}

/// Where a path leads, however it was written.
#[verifier::ext_equal]
pub struct Place {
    pub prefix: Option<(PrefixKind, Seq<u8>)>,
    pub rooted: bool,
    pub names: Seq<Seq<u8>>,
}

/// Which prefix a path has.
pub open spec fn prefix_key(prefix: Option<PrefixView>) -> Option<(PrefixKind, Seq<u8>)> {
    match prefix {
        Some(p) => Some((p.kind, p.identity)),
        None => None,
    }
}

/// Where a path leads.
pub open spec fn place(path: PathView) -> Place {
    Place {
        prefix: prefix_key(path.prefix),
        rooted: path.root is Some,
        names: name_bytes(path.names),
    }
}

/// The values of a sequence of paths.
pub open spec fn paths_view(paths: Seq<OsPath>) -> Seq<PathView> {
    Seq::new(paths.len(), |i: int| paths[i]@)
}

/// The value of a path that may be missing.
pub open spec fn path_option_view(path: Option<OsPath>) -> Option<PathView> {
    match path {
        Some(p) => Some(p@),
        None => None,
    }
}

/// Appending a component appends its value.
pub proof fn lemma_names_view_push(names: Seq<Name>, name: Name)
    ensures
        names_view(names.push(name)) == names_view(names).push(name@),
{
    assert(names_view(names.push(name)) =~= names_view(names).push(name@));
}

/// Copies a byte string.
pub fn copy_bytes(bytes: &Vec<u8>) -> (r: Vec<u8>)
    ensures
        r@ == bytes@,
{
    let r = bytes.clone();
    assert(r@ =~= bytes@);
    r
}

impl Clone for Name {
    fn clone(&self) -> (r: Name)
        ensures
            r@ == self@,
    {
        Name {
            gap: self.gap.clone(),
            bytes: copy_bytes(&self.bytes),
            text: self.text.clone(),
        }
    }
}

/// Appends the components from position `from` on to `out`.
fn copy_names_from(names: &Vec<Name>, from: usize, out: &mut Vec<Name>)
    requires
        from <= names@.len(),
    ensures
        names_view(final(out)@) == names_view(old(out)@) + names_view(names@).skip(from as int),
{
    let n: usize = names.len();
    let mut i: usize = from;
    assert(names_view(out@) =~= names_view(old(out)@) + names_view(names@).subrange(
        from as int,
        from as int,
    ));
    while i < n
        invariant
            from <= i <= n,
            n == names@.len(),
            names_view(out@) =~= names_view(old(out)@) + names_view(names@).subrange(
                from as int,
                i as int,
            ),
        decreases n - i,
    {
        let name = names[i].clone();
        proof {
            lemma_names_view_push(out@, name);
        }
        out.push(name);
        i = i + 1;
    }
    assert(names_view(names@).subrange(from as int, n as int) =~= names_view(names@).skip(
        from as int,
    ));
}

/// Copies a sequence of components.
fn copy_names(names: &Vec<Name>) -> (r: Vec<Name>)
    ensures
        names_view(r@) == names_view(names@),
{
    let mut r: Vec<Name> = Vec::new();
    copy_names_from(names, 0, &mut r);
    assert(names_view(r@) =~= names_view(names@));
    r
}

/// Copies a prefix that may be missing.
fn copy_prefix(prefix: &Option<Prefix>) -> (r: Option<Prefix>)
    ensures
        prefix_option_view(r) == prefix_option_view(*prefix),
{
    match prefix {
        Some(p) => Some(
            Prefix {
                kind: p.kind,
                identity: copy_bytes(&p.identity),
                bytes: copy_bytes(&p.bytes),
                text: p.text.clone(),
            },
        ),
        None => None,
    }
}

/// Copies a text that may be missing.
fn copy_text(text: &Option<String>) -> (r: Option<String>)
    ensures
        text_option_view(r) == text_option_view(*text),
{
    match text {
        Some(t) => Some(t.clone()),
        None => None,
    }
}

impl Clone for OsPath {
    fn clone(&self) -> (r: OsPath)
        ensures
            r@ == self@,
    {
        OsPath {
            prefix: copy_prefix(&self.prefix),
            root: copy_text(&self.root),
            names: copy_names(&self.names),
            trail: self.trail.clone(),
        }
    }
}

/// Components written out, each behind its gap.
pub open spec fn names_text(names: Seq<NameView>) -> Seq<char>
    decreases names.len(),
{
    if names.len() == 0 {
        Seq::empty()
    } else {
        names_text(names.drop_last()) + names.last().gap + names.last().text
    }
}

/// How a prefix that may be missing is shown.
pub open spec fn prefix_text(prefix: Option<PrefixView>) -> Seq<char> {
    match prefix {
        Some(p) => p.text,
        None => Seq::empty(),
    }
}

/// How a root directory that may be missing is written.
pub open spec fn root_text(root: Option<Seq<char>>) -> Seq<char> {
    match root {
        Some(r) => r,
        None => Seq::empty(),
    }
}

/// The text by which a path is shown: as it was given.
pub open spec fn path_text(path: PathView) -> Seq<char> {
    prefix_text(path.prefix) + root_text(path.root) + names_text(path.names) + path.trail
}

/// The bytes of components written out, each behind its gap.
pub open spec fn names_written(names: Seq<NameView>) -> Seq<u8>
    decreases names.len(),
{
    if names.len() == 0 {
        Seq::empty()
    } else {
        names_written(names.drop_last()) + encode_utf8(names.last().gap) + names.last().bytes
    }
}

/// The bytes of a prefix that may be missing.
pub open spec fn prefix_bytes(prefix: Option<PrefixView>) -> Seq<u8> {
    match prefix {
        Some(p) => p.bytes,
        None => Seq::empty(),
    }
}

/// The bytes of a path as it was given.
pub open spec fn path_bytes(path: PathView) -> Seq<u8> {
    prefix_bytes(path.prefix) + encode_utf8(root_text(path.root)) + names_written(path.names)
        + encode_utf8(path.trail)
}

/// The text by which a path is shown.
pub fn show_path(path: &OsPath) -> (s: String)
    ensures
        s@ == path_text(path@),
{
    let mut s = match &path.prefix {
        Some(p) => p.text.clone(),
        None => String::new(),
    };
    if let Some(root) = &path.root {
        s.append(root.as_str());
    }
    let ghost lead = s@;
    assert(lead =~= prefix_text(path@.prefix) + root_text(path@.root));
    let n: usize = path.names.len();
    let mut i: usize = 0;
    assert(s@ =~= lead + names_text(path@.names.take(0)));
    while i < n
        invariant
            i <= n,
            n == path.names@.len(),
            s@ == lead + names_text(path@.names.take(i as int)),
        decreases n - i,
    {
        let ghost after = path@.names.take(i + 1);
        assert(after.drop_last() =~= path@.names.take(i as int));
        s.append(path.names[i].gap.as_str());
        s.append(path.names[i].text.as_str());
        assert(after.last() == path.names@[i as int]@);
        assert(s@ =~= lead + names_text(after));
        i = i + 1;
    }
    assert(path@.names.take(n as int) =~= path@.names);
    s.append(path.trail.as_str());
    s
}

/// The bytes of a path as it was given.
pub fn write_path(path: &OsPath) -> (r: Vec<u8>)
    ensures
        r@ == path_bytes(path@),
{
    let mut r = match &path.prefix {
        Some(p) => copy_bytes(&p.bytes),
        None => Vec::new(),
    };
    let mut root = match &path.root {
        Some(root) => root.as_str().as_bytes_vec(),
        None => "".as_bytes_vec(),
    };
    proof {
        reveal_strlit("");
        assert(""@ =~= Seq::<char>::empty());
    }
    r.append(&mut root);
    let ghost lead = r@;
    assert(lead =~= prefix_bytes(path@.prefix) + encode_utf8(root_text(path@.root)));
    let n: usize = path.names.len();
    let mut i: usize = 0;
    assert(r@ =~= lead + names_written(path@.names.take(0)));
    while i < n
        invariant
            i <= n,
            n == path.names@.len(),
            r@ == lead + names_written(path@.names.take(i as int)),
        decreases n - i,
    {
        let ghost after = path@.names.take(i + 1);
        assert(after.drop_last() =~= path@.names.take(i as int));
        let mut gap = path.names[i].gap.as_str().as_bytes_vec();
        let mut name = copy_bytes(&path.names[i].bytes);
        r.append(&mut gap);
        r.append(&mut name);
        assert(after.last() == path.names@[i as int]@);
        assert(r@ =~= lead + names_written(after));
        i = i + 1;
    }
    assert(path@.names.take(n as int) =~= path@.names);
    let mut trail = path.trail.as_str().as_bytes_vec();
    r.append(&mut trail);
    r
}

/// Tells whether two byte strings are the same.
fn same_bytes(a: &Vec<u8>, b: &Vec<u8>) -> (r: bool)
    ensures
        r == (a@ == b@),
{
    let n: usize = a.len();
    if n != b.len() {
        return false;
    }
    let mut i: usize = 0;
    while i < n
        invariant
            i <= n,
            n == a@.len(),
            n == b@.len(),
            forall|j: int| 0 <= j < i ==> a@[j] == b@[j],
        decreases n - i,
    {
        if a[i] != b[i] {
            return false;
        }
        i = i + 1;
    }
    assert(a@ =~= b@);
    true
}

/// A path is empty.
pub open spec fn is_empty_path(p: PathView) -> bool {
    p.prefix is None && p.root is None && p.names.len() == 0
}

/// A path is a prefix and nothing else.
pub open spec fn is_bare_prefix(p: PathView) -> bool {
    p.prefix is Some && p.root is None && p.names.len() == 0
}

/// A path has a prefix behind which everything is taken word for word.
pub open spec fn is_verbatim(p: PathView) -> bool {
    p.prefix matches Some(prefix) && prefix.kind == PrefixKind::Verbatim
}

/// `path` lies at or below `base`: its parts begin with those of `base`.
pub open spec fn is_below(base: PathView, path: PathView) -> bool {
    ||| is_empty_path(base)
    ||| prefix_key(base.prefix) == prefix_key(path.prefix) && (is_bare_prefix(base) || (
    base.root is Some == path.root is Some && name_bytes(base.names).is_prefix_of(
        name_bytes(path.names),
    )))
}

/// The path of these components alone.
pub open spec fn relative(names: Seq<NameView>) -> PathView {
    PathView { prefix: None, root: None, names, trail: Seq::empty() }
}

/// Components of which the first follows nothing.
pub open spec fn without_first_gap(names: Seq<NameView>) -> Seq<NameView> {
    if names.len() == 0 {
        names
    } else {
        names.update(0, NameView { gap: Seq::empty(), ..names[0] })
    }
}

/// What remains of `path` behind `base`, to its last component. Behind a root directory or
/// components of `base` that is a relative path.
pub open spec fn relative_to(base: PathView, path: PathView) -> Option<PathView> {
    if is_empty_path(base) {
        Some(PathView { trail: Seq::empty(), ..path })
    } else if !is_below(base, path) {
        None
    } else if is_bare_prefix(base) {
        Some(PathView { prefix: None, trail: Seq::empty(), ..path })
    } else {
        Some(relative(without_first_gap(path.names.skip(base.names.len() as int))))
    }
}

/// What remains of `path` behind `base`, or `path` itself where it does not lie below.
pub open spec fn relative_or_whole(base: PathView, path: PathView) -> PathView {
    match relative_to(base, path) {
        Some(rel) => rel,
        None => path,
    }
}

/// The path is nothing but the letter of a drive, behind which no separator is put.
pub open spec fn is_bare_drive(path: PathView) -> bool {
    &&& path.prefix matches Some(prefix) && prefix.kind == PrefixKind::Drive
    &&& path.root is None
    &&& path.names.len() == 0
    &&& path.trail.len() == 0
}

/// What is put between a path and a component that follows it.
pub open spec fn bridge(path: PathView, separator: Separator) -> Seq<char> {
    let text = path_text(path);
    if text.len() == 0 || is_separator(text.last(), separator) || is_bare_drive(path) {
        Seq::empty()
    } else {
        seq![separator_char(separator)]
    }
}

/// The component is `.`, the same directory.
pub open spec fn is_dot(bytes: Seq<u8>) -> bool {
    bytes == seq![46u8]
}

/// The component is `..`, the directory above.
pub open spec fn is_dot_dot(bytes: Seq<u8>) -> bool {
    bytes == seq![46u8, 46u8]
}

/// The component is a name: neither `.` nor `..`.
pub open spec fn is_normal(bytes: Seq<u8>) -> bool {
    !is_dot(bytes) && !is_dot_dot(bytes)
}

/// A relative path that will follow something: a `.` with which it begins is no component then.
pub open spec fn without_dot(tail: PathView) -> PathView {
    if tail.names.len() == 0 || !is_dot(tail.names[0].bytes) {
        tail
    } else {
        let dot = tail.names[0].gap + tail.names[0].text;
        if tail.names.len() == 1 {
            PathView { names: Seq::empty(), trail: dot + tail.trail, ..tail }
        } else {
            PathView {
                names: tail.names.skip(1).update(
                    0,
                    NameView { gap: dot + tail.names[1].gap, ..tail.names[1] },
                ),
                ..tail
            }
        }
    }
}

/// A relative `tail` written behind `base`, with a separator where one is missing.
pub open spec fn appended(base: PathView, tail: PathView, separator: Separator) -> PathView {
    let between = base.trail + bridge(base, separator);
    let follows = base.root is Some || base.names.len() > 0;
    let rest = if follows {
        without_dot(tail)
    } else {
        tail
    };
    // A separator behind a prefix that implies the root directory is that directory.
    let is_root = base.root == Some(Seq::<char>::empty()) && base.names.len() == 0;
    let gap = if is_root {
        Seq::empty()
    } else {
        between
    };
    let root = if is_root {
        Some(between)
    } else {
        base.root
    };
    if rest.names.len() == 0 {
        PathView { prefix: base.prefix, root, names: base.names, trail: gap + rest.trail }
    } else {
        PathView {
            prefix: base.prefix,
            root,
            names: base.names + rest.names.update(
                0,
                NameView { gap: gap + rest.names[0].gap, ..rest.names[0] },
            ),
            trail: rest.trail,
        }
    }
}

/// The components to which `tail` leads from `names`: `.` leads nowhere, and `..` takes a name
/// away.
pub open spec fn resolved(names: Seq<NameView>, tail: Seq<NameView>) -> Seq<NameView>
    decreases tail.len(),
{
    if tail.len() == 0 {
        names
    } else {
        let before = resolved(names, tail.drop_last());
        if is_dot(tail.last().bytes) {
            before
        } else if is_dot_dot(tail.last().bytes) {
            if before.len() > 0 && is_normal(before.last().bytes) {
                before.drop_last()
            } else {
                before
            }
        } else {
            before.push(tail.last())
        }
    }
}

/// Components with one separator between each and the next.
pub open spec fn in_line(names: Seq<NameView>, separator: Separator) -> Seq<NameView> {
    Seq::new(
        names.len(),
        |i: int|
            NameView {
                gap: if i == 0 {
                    Seq::empty()
                } else {
                    seq![separator_char(separator)]
                },
                ..names[i]
            },
    )
}

/// `tail` seen from a `base` that is taken word for word: the path is written anew.
pub open spec fn rewritten(base: PathView, tail: PathView, separator: Separator) -> PathView {
    let names = resolved(
        if tail.root is Some {
            Seq::empty()
        } else {
            base.names
        },
        tail.names,
    );
    PathView {
        prefix: base.prefix,
        root: if base.root is Some || tail.root is Some || names.len() > 0 {
            Some(seq![separator_char(separator)])
        } else {
            None
        },
        names: in_line(names, separator),
        trail: Seq::empty(),
    }
}

/// `tail` seen from `base`. A `tail` with a prefix, or with a root directory where there are no
/// prefixes, stands for itself; where there are, one with a root directory alone keeps the
/// prefix of `base`.
pub open spec fn joined(base: PathView, tail: PathView, separator: Separator) -> PathView {
    if tail.prefix is Some || (tail.root is Some && separator == Separator::Slash) {
        tail
    } else if is_verbatim(base) && path_text(tail).len() > 0 {
        rewritten(base, tail, separator)
    } else if tail.root is Some {
        PathView { prefix: base.prefix, ..tail }
    } else {
        appended(base, tail, separator)
    }
}

/// The path of a single component.
pub open spec fn single(bytes: Seq<u8>, text: Seq<char>) -> PathView {
    relative(seq![NameView { gap: Seq::empty(), bytes, text }])
}

/// The directory that holds `path`; a bare root has none.
pub open spec fn parent_of(path: PathView) -> Option<PathView> {
    if path.names.len() == 0 {
        None
    } else {
        Some(PathView { names: path.names.drop_last(), trail: Seq::empty(), ..path })
    }
}

/// Tells whether two paths have the same prefix.
fn same_prefix(a: &Option<Prefix>, b: &Option<Prefix>) -> (r: bool)
    ensures
        r == (prefix_key(prefix_option_view(*a)) == prefix_key(prefix_option_view(*b))),
{
    match (a, b) {
        (Some(x), Some(y)) => x.kind == y.kind && same_bytes(&x.identity, &y.identity),
        (None, None) => true,
        _ => false,
    }
}

/// Tells whether the components of `path` begin with those of `base`.
fn begins_with(base: &Vec<Name>, path: &Vec<Name>) -> (r: bool)
    ensures
        r == name_bytes(names_view(base@)).is_prefix_of(name_bytes(names_view(path@))),
{
    let n: usize = base.len();
    let m: usize = path.len();
    let ghost short = name_bytes(names_view(base@));
    let ghost long = name_bytes(names_view(path@));
    if m < n {
        return false;
    }
    let mut i: usize = 0;
    while i < n
        invariant
            i <= n <= m,
            n == base@.len(),
            m == path@.len(),
            short == name_bytes(names_view(base@)),
            long == name_bytes(names_view(path@)),
            forall|j: int| 0 <= j < i ==> short[j] == long[j],
        decreases n - i,
    {
        if !same_bytes(&base[i].bytes, &path[i].bytes) {
            assert(short[i as int] != long[i as int]);
            assert(long.subrange(0, n as int)[i as int] == long[i as int]);
            return false;
        }
        assert(short[i as int] == long[i as int]);
        i = i + 1;
    }
    assert(short =~= long.subrange(0, n as int));
    true
}

/// Removes `base` from the front of `path`.
pub fn strip_base(base: &OsPath, path: &OsPath) -> (r: Option<OsPath>)
    ensures
        path_option_view(r) == relative_to(base@, path@),
{
    let n: usize = base.names.len();
    let bare = n == 0 && base.root.is_none();
    if bare && base.prefix.is_none() {
        let mut whole = path.clone();
        whole.trail = String::new();
        return Some(whole);
    }
    if !same_prefix(&base.prefix, &path.prefix) {
        return None;
    }
    if bare {
        let mut rest = path.clone();
        rest.prefix = None;
        rest.trail = String::new();
        return Some(rest);
    }
    if base.root.is_some() != path.root.is_some() || !begins_with(&base.names, &path.names) {
        return None;
    }
    assert(name_bytes(base@.names).len() <= name_bytes(path@.names).len());
    let mut names: Vec<Name> = Vec::new();
    copy_names_from(&path.names, n, &mut names);
    assert(names_view(names@) =~= path@.names.skip(n as int));
    if names.len() > 0 {
        let first = Name {
            gap: String::new(),
            bytes: copy_bytes(&names[0].bytes),
            text: names[0].text.clone(),
        };
        assert(first@ == (NameView { gap: Seq::empty(), ..names_view(names@)[0] }));
        names.set(0, first);
    }
    assert(names_view(names@) =~= without_first_gap(path@.names.skip(n as int)));
    Some(OsPath { prefix: None, root: None, names, trail: String::new() })
}

/// What remains of `path` behind `base`, or the whole `path` where it does not lie below.
pub fn strip_base_or_whole(base: &OsPath, path: &OsPath) -> (r: OsPath)
    ensures
        r@ == relative_or_whole(base@, path@),
{
    match strip_base(base, path) {
        Some(rel) => rel,
        None => path.clone(),
    }
}

/// Tells whether the path is nothing but the letter of a drive.
fn bare_drive(path: &OsPath) -> (r: bool)
    ensures
        r == is_bare_drive(path@),
{
    match &path.prefix {
        Some(p) => p.kind == PrefixKind::Drive && path.root.is_none() && path.names.len() == 0
            && path.trail.as_str().unicode_len() == 0,
        None => false,
    }
}

/// What is put between a path and a component that follows it.
fn bridge_text(path: &OsPath, separator: Separator) -> (s: &'static str)
    ensures
        s@ == bridge(path@, separator),
{
    proof {
        reveal_strlit("");
    }
    let text = show_path(path);
    let n: usize = text.as_str().unicode_len();
    let empty = "";
    assert(empty@ =~= Seq::<char>::empty());
    if n == 0 || bare_drive(path) {
        return empty;
    }
    let last = text.as_str().get_char(n - 1);
    if last == '/' || (last == '\\' && separator == Separator::Backslash) {
        return empty;
    }
    separator_text(separator)
}

/// Tells whether a component is `.`.
fn dot(bytes: &Vec<u8>) -> (r: bool)
    ensures
        r == is_dot(bytes@),
{
    let r = bytes.len() == 1 && bytes[0] == 46;
    assert(r ==> bytes@ =~= seq![46u8]);
    r
}

/// Tells whether a component is `..`.
fn dot_dot(bytes: &Vec<u8>) -> (r: bool)
    ensures
        r == is_dot_dot(bytes@),
{
    let r = bytes.len() == 2 && bytes[0] == 46 && bytes[1] == 46;
    assert(r ==> bytes@ =~= seq![46u8, 46u8]);
    r
}

/// A component behind another gap: `before`, then its own.
fn behind(before: &str, name: &Name) -> (r: Name)
    ensures
        r@ == (NameView { gap: before@ + name@.gap, ..name@ }),
{
    let mut gap = before.to_owned();
    gap.append(name.gap.as_str());
    Name { gap, bytes: copy_bytes(&name.bytes), text: name.text.clone() }
}

/// A relative path without the `.` with which it may begin.
fn drop_dot(tail: &OsPath) -> (r: OsPath)
    ensures
        r@ == without_dot(tail@),
{
    let n: usize = tail.names.len();
    if n == 0 || !dot(&tail.names[0].bytes) {
        return tail.clone();
    }
    let mut before = tail.names[0].gap.clone();
    before.append(tail.names[0].text.as_str());
    let mut r = tail.clone();
    if n == 1 {
        before.append(tail.trail.as_str());
        r.trail = before;
        r.names = Vec::new();
        assert(r@.names =~= Seq::<NameView>::empty());
        return r;
    }
    let mut names: Vec<Name> = Vec::new();
    let first = behind(before.as_str(), &tail.names[1]);
    proof {
        lemma_names_view_push(names@, first);
    }
    names.push(first);
    copy_names_from(&tail.names, 2, &mut names);
    assert(names_view(names@) =~= without_dot(tail@).names);
    r.names = names;
    r
}

/// A relative `tail` written behind `base`.
fn append(base: &OsPath, tail: &OsPath, separator: Separator) -> (r: OsPath)
    ensures
        r@ == appended(base@, tail@, separator),
{
    let mut between = base.trail.clone();
    between.append(bridge_text(base, separator));
    let n: usize = base.names.len();
    let rest = if base.root.is_some() || n > 0 {
        drop_dot(tail)
    } else {
        tail.clone()
    };
    let mut root = copy_text(&base.root);
    let mut gap = between;
    if n == 0 {
        if let Some(written) = &base.root {
            if written.as_str().unicode_len() == 0 {
                assert(written@ =~= Seq::<char>::empty());
                root = Some(gap);
                gap = String::new();
            }
        }
    }
    let prefix = copy_prefix(&base.prefix);
    let mut names = copy_names(&base.names);
    if rest.names.len() == 0 {
        gap.append(rest.trail.as_str());
        return OsPath { prefix, root, names, trail: gap };
    }
    let first = behind(gap.as_str(), &rest.names[0]);
    proof {
        lemma_names_view_push(names@, first);
    }
    names.push(first);
    copy_names_from(&rest.names, 1, &mut names);
    assert(names_view(names@) =~= appended(base@, tail@, separator).names);
    OsPath { prefix, root, names, trail: rest.trail.clone() }
}

/// The character that is put between names, as a text.
fn separator_text(separator: Separator) -> (s: &'static str)
    ensures
        s@ == seq![separator_char(separator)],
{
    proof {
        reveal_strlit("/");
        reveal_strlit("\\");
    }
    match separator {
        Separator::Slash => {
            let s = "/";
            assert(s@ =~= seq!['/']);
            s
        },
        Separator::Backslash => {
            let s = "\\";
            assert(s@ =~= seq!['\\']);
            s
        },
    }
}

/// Goes on from the components `names` along `tail`.
fn resolve(names: &mut Vec<Name>, tail: &Vec<Name>)
    ensures
        names_view(final(names)@) == resolved(names_view(old(names)@), names_view(tail@)),
{
    let n: usize = tail.len();
    let ghost start = names_view(names@);
    let ghost all = names_view(tail@);
    let mut i: usize = 0;
    while i < n
        invariant
            i <= n,
            n == tail@.len(),
            all == names_view(tail@),
            names_view(names@) == resolved(start, all.take(i as int)),
        decreases n - i,
    {
        let ghost after = all.take(i + 1);
        assert(after.drop_last() =~= all.take(i as int));
        assert(after.last() == tail@[i as int]@);
        let ghost before = names@;
        if dot(&tail[i].bytes) {
        } else if dot_dot(&tail[i].bytes) {
            let m: usize = names.len();
            if m > 0 {
                assert(names_view(before).last() == before[m - 1]@);
                if !dot(&names[m - 1].bytes) && !dot_dot(&names[m - 1].bytes) {
                    let _ = names.pop();
                    assert(names_view(names@) =~= names_view(before).drop_last());
                }
            }
        } else {
            let name = tail[i].clone();
            proof {
                lemma_names_view_push(names@, name);
            }
            names.push(name);
        }
        i = i + 1;
    }
    assert(all.take(n as int) =~= all);
}

/// Puts one separator between each component and the next.
fn line_up(names: &Vec<Name>, separator: Separator) -> (r: Vec<Name>)
    ensures
        names_view(r@) == in_line(names_view(names@), separator),
{
    let mut r: Vec<Name> = Vec::new();
    let n: usize = names.len();
    let ghost all = in_line(names_view(names@), separator);
    let mut i: usize = 0;
    while i < n
        invariant
            i <= n,
            n == names@.len(),
            r@.len() == i,
            all == in_line(names_view(names@), separator),
            forall|j: int| 0 <= j < i ==> (#[trigger] r@[j])@ == all[j],
        decreases n - i,
    {
        let gap = if i == 0 {
            String::new()
        } else {
            separator_text(separator).to_owned()
        };
        r.push(Name { gap, bytes: copy_bytes(&names[i].bytes), text: names[i].text.clone() });
        assert(r@[i as int]@ =~= all[i as int]);
        i = i + 1;
    }
    assert(names_view(r@) =~= all);
    r
}

/// `tail` seen from a `base` that is taken word for word.
fn rewrite(base: &OsPath, tail: &OsPath, separator: Separator) -> (r: OsPath)
    ensures
        r@ == rewritten(base@, tail@, separator),
{
    let mut names = if tail.root.is_some() {
        let none: Vec<Name> = Vec::new();
        assert(names_view(none@) =~= Seq::<NameView>::empty());
        none
    } else {
        copy_names(&base.names)
    };
    resolve(&mut names, &tail.names);
    let root = if base.root.is_some() || tail.root.is_some() || names.len() > 0 {
        Some(separator_text(separator).to_owned())
    } else {
        None
    };
    OsPath {
        prefix: copy_prefix(&base.prefix),
        root,
        names: line_up(&names, separator),
        trail: String::new(),
    }
}

/// `tail` seen from `base`.
pub fn join(base: &OsPath, tail: &OsPath, separator: Separator) -> (r: OsPath)
    ensures
        r@ == joined(base@, tail@, separator),
{
    if tail.prefix.is_some() || (tail.root.is_some() && separator == Separator::Slash) {
        return tail.clone();
    }
    let verbatim = match &base.prefix {
        Some(p) => p.kind == PrefixKind::Verbatim,
        None => false,
    };
    if verbatim && show_path(tail).as_str().unicode_len() > 0 {
        return rewrite(base, tail, separator);
    }
    if tail.root.is_some() {
        let mut r = tail.clone();
        r.prefix = copy_prefix(&base.prefix);
        return r;
    }
    append(base, tail, separator)
}

/// The path of the entry of a directory, by the bytes and the shown text of its name.
pub fn child(dir: &OsPath, bytes: &Vec<u8>, text: &String, separator: Separator) -> (r: OsPath)
    ensures
        r@ == joined(dir@, single(bytes@, text@), separator),
{
    let mut names: Vec<Name> = Vec::new();
    names.push(Name { gap: String::new(), bytes: copy_bytes(bytes), text: text.clone() });
    let entry = OsPath { prefix: None, root: None, names, trail: String::new() };
    assert(entry@.names =~= single(bytes@, text@).names);
    assert(entry@ =~= single(bytes@, text@));
    join(dir, &entry, separator)
}

/// The directory that holds `path`.
pub fn parent(path: &OsPath) -> (r: Option<OsPath>)
    ensures
        path_option_view(r) == parent_of(path@),
{
    if path.names.len() == 0 {
        return None;
    }
    let mut names = copy_names(&path.names);
    let ghost before = names@;
    assert(names_view(before).len() == path.names@.len());
    let _ = names.pop();
    assert(names_view(names@) =~= names_view(before).drop_last());
    let mut r = path.clone();
    r.names = names;
    r.trail = String::new();
    Some(r)
}

/// The path of `img` seen from the input directory, as text for lists and logs. An image that
/// does not lie below `input` is shown by its whole path.
pub fn rel_display(input: &OsPath, img: &OsPath) -> (s: String)
    ensures
        s@ == path_text(relative_or_whole(input@, img@)),
{
    show_path(&strip_base_or_whole(input, img))
}

/// The position of the last `.` in `name`.
pub open spec fn last_dot(name: Seq<u8>) -> Option<int>
    decreases name.len(),
{
    if name.len() == 0 {
        None
    } else if name.last() == 46u8 {
        Some(name.len() - 1)
    } else {
        last_dot(name.drop_last())
    }
}

/// What stands behind the last `.` of a file name. A name whose only dot comes first, a name
/// without a dot and the name `..` have no extension.
pub open spec fn extension_of(name: Seq<u8>) -> Option<Seq<u8>> {
    match last_dot(name) {
        Some(d) => if d == 0 || name == seq![46u8, 46u8] {
            None
        } else {
            Some(name.skip(d + 1))
        },
        None => None,
    }
}

/// The extension of the last name of a path.
pub open spec fn path_extension(path: PathView) -> Option<Seq<u8>> {
    if path.names.len() == 0 {
        None
    } else {
        extension_of(path.names.last().bytes)
    }
}

/// The position of the last `.` in `name`.
fn find_last_dot(name: &Vec<u8>) -> (r: Option<usize>)
    ensures
        r is None <==> last_dot(name@) is None,
        r is Some ==> last_dot(name@) == Some(r->0 as int) && r->0 < name@.len(),
{
    let mut i: usize = name.len();
    assert(name@.take(i as int) =~= name@);
    while i > 0
        invariant
            i <= name@.len(),
            last_dot(name@) == last_dot(name@.take(i as int)),
        decreases i,
    {
        if name[i - 1] == 46 {
            return Some(i - 1);
        }
        assert(name@.take(i as int).drop_last() =~= name@.take(i - 1));
        i = i - 1;
    }
    None
}

/// The extension of the last name of a path.
pub fn extension(path: &OsPath) -> (r: Option<Vec<u8>>)
    ensures
        r is None <==> path_extension(path@) is None,
        r is Some ==> path_extension(path@) == Some(r->0@),
{
    let n: usize = path.names.len();
    if n == 0 {
        return None;
    }
    let name = &path.names[n - 1].bytes;
    assert(path@.names.last().bytes == name@);
    match find_last_dot(name) {
        Some(d) => {
            let m: usize = name.len();
            if d == 0 || (m == 2 && d == 1 && name[0] == 46) {
                proof {
                    lemma_last_dot(name@);
                }
                assert(d != 0 ==> name@ =~= seq![46u8, 46u8]);
                return None;
            }
            let mut r: Vec<u8> = Vec::new();
            let mut i: usize = d + 1;
            while i < m
                invariant
                    d + 1 <= i <= m,
                    m == name@.len(),
                    r@ =~= name@.subrange(d + 1, i as int),
                decreases m - i,
            {
                r.push(name[i]);
                i = i + 1;
            }
            assert(name@.subrange(d + 1, m as int) =~= name@.skip(d + 1));
            Some(r)
        },
        None => None,
    }
}

/// The byte at the last dot is a dot.
proof fn lemma_last_dot(name: Seq<u8>)
    ensures
        last_dot(name) matches Some(d) ==> 0 <= d < name.len() && name[d] == 46u8,
    decreases name.len(),
{
    if name.len() > 0 && name.last() != 46u8 {
        lemma_last_dot(name.drop_last());
    }
}

/// An ASCII capital letter as its small letter; any other byte as it is.
pub open spec fn lower_byte(b: u8) -> u8 {
    if 65 <= b <= 90 {
        (b + 32) as u8
    } else {
        b
    }
}

/// `bytes` are the ASCII letters of `word`, whatever their case.
pub open spec fn spells(bytes: Seq<u8>, word: Seq<char>) -> bool {
    &&& bytes.len() == word.len()
    &&& forall|i: int| 0 <= i < word.len() ==> #[trigger] lower_byte(bytes[i]) as int == word[i] as int
}

/// Tells whether `bytes` are the ASCII letters of `word`, whatever their case.
fn spells_word(bytes: &Vec<u8>, word: &str) -> (r: bool)
    requires
        word.is_ascii(),
    ensures
        r == spells(bytes@, word@),
{
    let n: usize = bytes.len();
    if n != word.unicode_len() {
        return false;
    }
    let mut i: usize = 0;
    while i < n
        invariant
            i <= n,
            n == bytes@.len(),
            n == word@.len(),
            word.is_ascii(),
            forall|j: int| 0 <= j < i ==> #[trigger] lower_byte(bytes@[j]) as int == word@[j] as int,
        decreases n - i,
    {
        let b: u8 = bytes[i];
        let low: u8 = if 65 <= b && b <= 90 {
            b + 32
        } else {
            b
        };
        assert(low == lower_byte(bytes@[i as int]));
        assert((word@[i as int] as u8) as int == word@[i as int] as int);
        if low != word.get_ascii(i) {
            return false;
        }
        i = i + 1;
    }
    true
}

/// The extensions of the image files that are taken.
pub const SUPPORTED_EXT: [&'static str; 4] = ["jpg", "jpeg", "png", "webp"];

/// `path` is named like a supported image: the case of the extension does not matter.
pub open spec fn supported(path: PathView) -> bool {
    match path_extension(path) {
        Some(ext) => exists|k: int|
            0 <= k < SUPPORTED_EXT@.len() && spells(ext, #[trigger] SUPPORTED_EXT@[k]@),
        None => false,
    }
}

/// Tells whether `p` is named like a supported image.
pub fn is_supported(p: &OsPath) -> (r: bool)
    ensures
        r == supported(p@),
{
    proof {
        reveal_strlit("jpg");
        reveal_strlit("jpeg");
        reveal_strlit("png");
        reveal_strlit("webp");
    }
    match extension(p) {
        Some(ext) => {
            let mut k: usize = 0;
            while k < 4
                invariant
                    k <= 4,
                    path_extension(p@) == Some(ext@),
                    forall|j: int| 0 <= j < 4 ==> (#[trigger] SUPPORTED_EXT@[j]).is_ascii(),
                    forall|j: int| 0 <= j < k ==> !spells(ext@, #[trigger] SUPPORTED_EXT@[j]@),
                decreases 4 - k,
            {
                assert(SUPPORTED_EXT@[k as int].is_ascii());
                if spells_word(&ext, SUPPORTED_EXT[k]) {
                    assert(spells(ext@, SUPPORTED_EXT@[k as int]@));
                    return true;
                }
                k = k + 1;
            }
            false
        },
        None => false,
    }
}

/// The media type under which an image is uploaded: JPEG, unless the extension says PNG or WebP.
pub open spec fn media_type(path: PathView) -> Seq<char> {
    match path_extension(path) {
        Some(ext) => if spells(ext, "png"@) {
            "image/png"@
        } else if spells(ext, "webp"@) {
            "image/webp"@
        } else {
            "image/jpeg"@
        },
        None => "image/jpeg"@,
    }
}

/// The media type under which an image is uploaded.
pub fn mime_of(p: &OsPath) -> (m: &'static str)
    ensures
        m@ == media_type(p@),
{
    proof {
        reveal_strlit("png");
        reveal_strlit("webp");
    }
    match extension(p) {
        Some(ext) => if spells_word(&ext, "png") {
            "image/png"
        } else if spells_word(&ext, "webp") {
            "image/webp"
        } else {
            "image/jpeg"
        },
        None => "image/jpeg",
    }
}

} // verus!
