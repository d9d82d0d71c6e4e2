//! Listing a directory for the file panel, and choosing the editor that opens a file.

use crate::layout::{opt_text, texts};
use crate::selection::{is_white, white};
use crate::state::opt_str;
use crate::text::{append, chars_of, string_of};
use vstd::prelude::*;

verus! {

/// The most entries that one listing carries.
pub const MAX_ENTRIES: usize = 5_000;

/// The editor that is used when none is named.
pub const FALLBACK_EDITOR: &'static str = "vi";

// ---------------------------------------------------------------------------
// Entries
// ---------------------------------------------------------------------------

/// One entry of a directory.
#[derive(Debug, Clone, PartialEq, Eq)]
pub struct DirEntry {
    pub name: String,
    /// A directory, or a link to one.
    pub is_dir: bool,
    pub is_symlink: bool,
    pub size: u64,
}

/// An entry as a mathematical value.
pub struct EntryView {
    pub name: Seq<char>,
    pub is_dir: bool,
    pub is_symlink: bool,
    pub size: u64,
}

impl View for DirEntry {
    type V = EntryView;

    open spec fn view(&self) -> EntryView {
        EntryView {
            name: self.name@,
            is_dir: self.is_dir,
            is_symlink: self.is_symlink,
            size: self.size,
        }
    }
}

impl DirEntry {
    fn duplicate(&self) -> (r: DirEntry)
        ensures
            r@ == self@,
    {
        DirEntry {
            name: self.name.clone(),
            is_dir: self.is_dir,
            is_symlink: self.is_symlink,
            size: self.size,
        }
    }
}

/// The entries of a list.
pub open spec fn entry_views(v: Seq<DirEntry>) -> Seq<EntryView> {
    Seq::new(v.len(), |i: int| v[i]@)
}

/// What the file system tells of the thing that a directory item leads to.
#[derive(Debug)]
pub struct Target {
    pub is_dir: bool,
    pub size: u64,
}

/// What the file system tells of a directory item. What it could not tell is absent: a
/// broken link has no target.
#[derive(Debug)]
pub struct Found {
    pub name: String,
    pub is_symlink: Option<bool>,
    pub target: Option<Target>,
}

impl Found {
    /// The entry for a directory item. A link to a directory is a link and a directory; a
    /// broken link is no directory.
    pub open spec fn as_entry(self) -> EntryView {
        EntryView {
            name: self.name@,
            is_dir: self.target is Some && self.target->0.is_dir,
            is_symlink: self.is_symlink == Some(true),
            size: if self.target is Some {
                self.target->0.size
            } else {
                0
            },
        }
    }

    /// The entry for a directory item.
    pub fn entry(&self) -> (r: DirEntry)
        ensures
            r@ == self.as_entry(),
    {
        let is_symlink: bool = match self.is_symlink {
            Some(s) => s,
            None => false,
        };
        let (is_dir, size): (bool, u64) = match &self.target {
            Some(t) => (t.is_dir, t.size),
            None => (false, 0),
        };
        DirEntry { name: self.name.clone(), is_dir, is_symlink, size }
    }
}

// ---------------------------------------------------------------------------
// Order
// ---------------------------------------------------------------------------

/// A text in lower case, as the standard library's `str::to_lowercase` gives it.
pub uninterp spec fn lower_case(text: Seq<char>) -> Seq<char>;

/// `str::to_lowercase`: the text in lower case. It depends on the text alone.
#[verifier::external_body]
fn lowered(text: &str) -> (r: String)
    ensures
        r@ == lower_case(text@),
{
    text.to_lowercase()
}

/// One text is before another: where they differ first, it has the smaller character or
/// has ended.
pub open spec fn text_before(a: Seq<char>, b: Seq<char>) -> bool
    decreases a.len(),
{
    if b.len() == 0 {
        false
    } else if a.len() == 0 {
        true
    } else if a[0] != b[0] {
        a[0] < b[0]
    } else {
        text_before(a.skip(1), b.skip(1))
    }
}

/// An entry with its name in lower case.
pub type Keyed = (EntryView, Seq<char>);

/// One entry is shown above another: directories first, then by the name in lower case,
/// then by the name.
pub open spec fn above(a: Keyed, b: Keyed) -> bool {
    if a.0.is_dir != b.0.is_dir {
        a.0.is_dir
    } else if a.1 != b.1 {
        text_before(a.1, b.1)
    } else {
        text_before(a.0.name, b.0.name)
    }
}

/// Where an entry goes among the first `n` of an ordered list: behind the last one that it
/// is not above.
pub open spec fn place(list: Seq<Keyed>, e: Keyed, n: int) -> int
    decreases n,
{
    if n <= 0 {
        0
    } else if above(e, list[n - 1]) {
        place(list, e, n - 1)
    } else {
        n
    }
}

/// The entries in order. Those that no rule tells apart keep their order.
pub open spec fn arranged(list: Seq<Keyed>) -> Seq<Keyed>
    decreases list.len(),
{
    if list.len() == 0 {
        Seq::empty()
    } else {
        let rest = arranged(list.drop_last());
        rest.insert(place(rest, list.last(), rest.len() as int), list.last())
    }
}

/// Entries with the given lower-case names.
pub open spec fn keyed(entries: Seq<EntryView>, lower: Seq<Seq<char>>) -> Seq<Keyed> {
    Seq::new(entries.len(), |i: int| (entries[i], lower[i]))
}

/// Entries with their names in lower case.
pub open spec fn with_lower_case(entries: Seq<EntryView>) -> Seq<Keyed> {
    Seq::new(entries.len(), |i: int| (entries[i], lower_case(entries[i].name)))
}

/// The entries of a list without their keys.
pub open spec fn entries_of(list: Seq<Keyed>) -> Seq<EntryView> {
    Seq::new(list.len(), |i: int| list[i].0)
}

fn char_before(a: char, b: char) -> (r: bool)
    ensures
        r == (a < b),
{
    (a as u32) < (b as u32)
}

/// Whether one text is before another.
pub fn is_text_before(a: &Vec<char>, b: &Vec<char>) -> (r: bool)
    ensures
        r == text_before(a@, b@),
{
    let mut i: usize = 0;
    assert(a@.skip(0) =~= a@);
    assert(b@.skip(0) =~= b@);
    while i < a.len() && i < b.len()
        invariant
            i <= a.len(),
            i <= b.len(),
            text_before(a@, b@) == text_before(a@.skip(i as int), b@.skip(i as int)),
        decreases a.len() - i,
    {
        assert(a@.skip(i as int).skip(1) =~= a@.skip(i + 1));
        assert(b@.skip(i as int).skip(1) =~= b@.skip(i + 1));
        if a[i] != b[i] {
            return char_before(a[i], b[i]);
        }
        i += 1;
    }
    i < b.len()
}

struct Key {
    is_dir: bool,
    lower: Vec<char>,
    name: Vec<char>,
}

impl Key {
    spec fn stands_for(self, k: Keyed) -> bool {
        &&& self.is_dir == k.0.is_dir
        &&& self.lower@ == k.1
        &&& self.name@ == k.0.name
    }

    fn is_above(&self, other: &Key) -> (r: bool)
        ensures
            forall|a: Keyed, b: Keyed|
                #![trigger self.stands_for(a), other.stands_for(b)]
                self.stands_for(a) && other.stands_for(b) ==> r == above(a, b),
    {
        if self.is_dir != other.is_dir {
            return self.is_dir;
        }
        if is_text_before(&self.lower, &other.lower) {
            proof {
                law_texts_have_an_order(self.lower@, other.lower@, self.lower@);
            }
            return true;
        }
        if is_text_before(&other.lower, &self.lower) {
            proof {
                law_texts_have_an_order(self.lower@, other.lower@, self.lower@);
            }
            return false;
        }
        proof {
            law_texts_have_an_order(self.lower@, other.lower@, self.lower@);
        }
        is_text_before(&self.name, &other.name)
    }
}

spec fn stand_for(keys: Seq<Key>, list: Seq<Keyed>) -> bool {
    &&& keys.len() == list.len()
    &&& forall|i: int| 0 <= i < keys.len() ==> (#[trigger] keys[i]).stands_for(list[i])
}

proof fn lemma_place(list: Seq<Keyed>, e: Keyed, n: int)
    requires
        0 <= n <= list.len(),
    ensures
        0 <= place(list, e, n) <= n,
    decreases n,
{
    if n > 0 && above(e, list[n - 1]) {
        lemma_place(list, e, n - 1);
    }
}

/// The entries in order, by the lower-case names given for them.
pub fn sort_by_lower_case(entries: &Vec<DirEntry>, lower: &Vec<String>) -> (r: Vec<DirEntry>)
    requires
        lower@.len() == entries@.len(),
    ensures
        entry_views(r@) == entries_of(
            arranged(keyed(entry_views(entries@), texts(lower@))),
        ),
{
    let ghost all = keyed(entry_views(entries@), texts(lower@));
    let mut out: Vec<DirEntry> = Vec::new();
    let mut keys: Vec<Key> = Vec::new();
    let mut i: usize = 0;
    assert(all.take(0) =~= Seq::empty());
    while i < entries.len()
        invariant
            i <= entries.len(),
            lower@.len() == entries@.len(),
            all == keyed(entry_views(entries@), texts(lower@)),
            entry_views(out@) == entries_of(arranged(all.take(i as int))),
            stand_for(keys@, arranged(all.take(i as int))),
        decreases entries.len() - i,
    {
        let ghost rest = arranged(all.take(i as int));
        let ghost e = all[i as int];
        let key = Key {
            is_dir: entries[i].is_dir,
            lower: chars_of(&lower[i]),
            name: chars_of(&entries[i].name),
        };
        assert(key.stands_for(e));
        let mut p: usize = keys.len();
        let mut on: bool = true;
        while on
            invariant
                p <= keys.len(),
                stand_for(keys@, rest),
                key.stands_for(e),
                place(rest, e, rest.len() as int) == place(rest, e, p as int),
                !on ==> place(rest, e, p as int) == p,
            decreases p + (if on { 1int } else { 0int }),
        {
            if p > 0 {
                assert(keys@[p - 1].stands_for(rest[p - 1]));
                if key.is_above(&keys[p - 1]) {
                    p -= 1;
                } else {
                    on = false;
                }
            } else {
                on = false;
            }
        }
        assert(all.take(i + 1).drop_last() =~= all.take(i as int));
        assert(arranged(all.take(i + 1)) == rest.insert(p as int, e));
        assert(entry_views(out@).len() == entries_of(rest).len());
        assert forall|k: int| 0 <= k < out@.len() implies (#[trigger] out@[k])@ == rest[k].0 by {
            assert(entry_views(out@)[k] == entries_of(rest)[k]);
        }
        out.insert(p, entries[i].duplicate());
        keys.insert(p, key);
        assert(entry_views(out@) =~= entries_of(rest.insert(p as int, e)));
        i += 1;
    }
    assert(all.take(i as int) =~= all);
    out
}

/// Put the entries in order: directories first, then by name whatever its case. The exact
/// name breaks ties.
pub fn sort_entries(entries: &mut Vec<DirEntry>)
    ensures
        entry_views(final(entries)@) == entries_of(
            arranged(with_lower_case(entry_views(old(entries)@))),
        ),
{
    let mut lower: Vec<String> = Vec::new();
    let mut i: usize = 0;
    while i < entries.len()
        invariant
            i <= entries.len(),
            entries@ == old(entries)@,
            lower@.len() == i,
            forall|k: int| 0 <= k < i ==> (#[trigger] lower@[k])@ == lower_case(entries@[k].name@),
        decreases entries.len() - i,
    {
        lower.push(lowered(&entries[i].name));
        i += 1;
    }
    assert(keyed(entry_views(entries@), texts(lower@)) =~= with_lower_case(
        entry_views(entries@),
    ));
    let r = sort_by_lower_case(entries, &lower);
    *entries = r;
}

// ---------------------------------------------------------------------------
// Listings
// ---------------------------------------------------------------------------

/// What a directory holds, why it could not be read, and whether entries are missing.
#[derive(Debug, Clone, PartialEq, Eq)]
pub struct Listing {
    pub entries: Vec<DirEntry>,
    pub error: Option<String>,
    pub truncated: bool,
}

/// A listing as a mathematical value.
#[verifier::ext_equal]
pub struct ListingView {
    pub entries: Seq<EntryView>,
    pub error: Option<Seq<char>>,
    pub truncated: bool,
}

impl View for Listing {
    type V = ListingView;

    open spec fn view(&self) -> ListingView {
        ListingView {
            entries: entry_views(self.entries@),
            error: opt_text(self.error),
            truncated: self.truncated,
        }
    }
}

/// A listing that could not be made.
pub open spec fn failure(reason: Seq<char>) -> ListingView {
    ListingView { entries: Seq::empty(), error: Some(reason), truncated: false }
}

impl Listing {
    /// A listing that could not be made, with the reason.
    pub fn failed(reason: String) -> (r: Listing)
        ensures
            r@ == failure(reason@),
    {
        let r = Listing { entries: Vec::new(), error: Some(reason), truncated: false };
        assert(r@ =~= failure(reason@));
        r
    }
}

/// Why a directory could not be read.
#[derive(Debug)]
pub enum ReadFailure {
    NotFound,
    PermissionDenied,
    NotADirectory,
    /// Something else, in the words of the system.
    Other(String),
}

impl ReadFailure {
    /// A short reason.
    pub open spec fn reason(self) -> Seq<char> {
        match self {
            ReadFailure::NotFound => "not found"@,
            ReadFailure::PermissionDenied => "permission denied"@,
            ReadFailure::NotADirectory => "not a directory"@,
            ReadFailure::Other(s) => s@,
        }
    }
}

/// A short reason for a failed listing.
pub fn describe_io_error(e: &ReadFailure) -> (r: String)
    ensures
        r@ == e.reason(),
{
    match e {
        ReadFailure::NotFound => "not found".to_owned(),
        ReadFailure::PermissionDenied => "permission denied".to_owned(),
        ReadFailure::NotADirectory => "not a directory".to_owned(),
        ReadFailure::Other(s) => s.clone(),
    }
}

/// A path that does not depend on a working directory.
pub open spec fn absolute(path: Seq<char>) -> bool {
    path.len() > 0 && path[0] == '/'
}

/// Whether a path does not depend on a working directory.
pub fn is_absolute(path: &str) -> (r: bool)
    ensures
        r == absolute(path@),
{
    let c = chars_of(path);
    c.len() > 0 && c[0] == '/'
}

/// The entries of the first `n` items, without those that could not be read.
pub open spec fn readable(items: Seq<Option<Found>>, n: int) -> Seq<EntryView>
    decreases n,
{
    if n <= 0 {
        Seq::empty()
    } else if items[n - 1] is Some {
        readable(items, n - 1).push(items[n - 1]->0.as_entry())
    } else {
        readable(items, n - 1)
    }
}

/// The entries of a directory, as far as the listing carries them.
pub open spec fn carried(items: Seq<Option<Found>>) -> Seq<EntryView> {
    let all = readable(items, items.len() as int);
    if all.len() > MAX_ENTRIES {
        all.take(MAX_ENTRIES as int)
    } else {
        all
    }
}

/// The listing of a directory.
pub open spec fn listed(
    path: Seq<char>,
    read: Result<Seq<Option<Found>>, Seq<char>>,
) -> ListingView {
    if !absolute(path) {
        failure("not an absolute path: "@ + path)
    } else {
        match read {
            Err(reason) => failure(reason),
            Ok(items) => ListingView {
                entries: entries_of(arranged(with_lower_case(carried(items)))),
                error: None,
                truncated: readable(items, items.len() as int).len() > MAX_ENTRIES,
            },
        }
    }
}

/// What reading a directory gave.
pub open spec fn read_view(
    read: Result<Vec<Option<Found>>, ReadFailure>,
) -> Result<Seq<Option<Found>>, Seq<char>> {
    match read {
        Ok(items) => Ok(items@),
        Err(e) => Err(e.reason()),
    }
}

proof fn lemma_readable_grows(items: Seq<Option<Found>>, i: int, n: int)
    requires
        0 <= i <= n <= items.len(),
    ensures
        readable(items, i).len() <= readable(items, n).len(),
        readable(items, n).take(readable(items, i).len() as int) == readable(items, i),
    decreases n - i,
{
    if i < n {
        lemma_readable_grows(items, i, n - 1);
        let k = readable(items, i).len() as int;
        assert(readable(items, n).take(k) =~= readable(items, n - 1).take(k));
    } else {
        assert(readable(items, n).take(readable(items, i).len() as int) =~= readable(items, i));
    }
}

/// List a directory, from what reading it gave: the items, of which some may be
/// unreadable, or a failure. A relative path is refused, since it would be resolved against
/// the directory that the server was started in.
pub fn list_directory(path: &str, read: &Result<Vec<Option<Found>>, ReadFailure>) -> (r: Listing)
    ensures
        r@ == listed(path@, read_view(*read)),
{
    if !is_absolute(path) {
        let mut reason: String = "not an absolute path: ".to_owned();
        append(&mut reason, path);
        return Listing::failed(reason);
    }
    let items: &Vec<Option<Found>> = match read {
        Ok(items) => items,
        Err(e) => {
            return Listing::failed(describe_io_error(e));
        },
    };
    let mut entries: Vec<DirEntry> = Vec::new();
    let mut truncated: bool = false;
    let mut i: usize = 0;
    assert(entry_views(entries@) =~= Seq::empty());
    while i < items.len() && !truncated
        invariant
            i <= items.len(),
            entries@.len() <= MAX_ENTRIES,
            !truncated ==> entry_views(entries@) == readable(items@, i as int),
            truncated ==> {
                &&& readable(items@, items@.len() as int).len() > MAX_ENTRIES
                &&& entry_views(entries@) == readable(items@, items@.len() as int).take(
                    MAX_ENTRIES as int,
                )
            },
        decreases items.len() - i,
    {
        match &items[i] {
            Some(found) => {
                if entries.len() >= MAX_ENTRIES {
                    truncated = true;
                    proof {
                        assert(entry_views(entries@).len() == entries@.len());
                        lemma_readable_grows(items@, i as int, items@.len() as int);
                        lemma_readable_grows(items@, i + 1, items@.len() as int);
                    }
                } else {
                    entries.push(found.entry());
                    assert(entry_views(entries@) =~= readable(items@, i + 1));
                }
            },
            None => {},
        }
        i += 1;
    }
    assert(entry_views(entries@) == carried(items@)) by {
        assert(entry_views(entries@).len() == entries@.len());
    }
    sort_entries(&mut entries);
    let r = Listing { entries, error: None, truncated };
    assert(r@ =~= listed(path@, read_view(*read)));
    r
}

/// `dirs::home_dir`: the home directory of the user that the server runs as, if it can be
/// told and is text. It depends on the environment and on the user database, so nothing is
/// stated of it.
#[verifier::external_body]
pub fn home_dir() -> (r: Option<String>) {
    dirs::home_dir().and_then(|h| h.to_str().map(str::to_string))
}

// ---------------------------------------------------------------------------
// The editor
// ---------------------------------------------------------------------------

/// The words of a text that white space has ended, and the one that it has not.
pub open spec fn cut(s: Seq<char>) -> (Seq<Seq<char>>, Seq<char>)
    decreases s.len(),
{
    if s.len() == 0 {
        (Seq::empty(), Seq::empty())
    } else {
        let (done, open) = cut(s.drop_last());
        if !white(s.last()) {
            (done, open.push(s.last()))
        } else if open.len() > 0 {
            (done.push(open), Seq::empty())
        } else {
            (done, open)
        }
    }
}

/// The words of a text, which white space parts.
pub open spec fn words(s: Seq<char>) -> Seq<Seq<char>> {
    let (done, open) = cut(s);
    if open.len() > 0 {
        done.push(open)
    } else {
        done
    }
}

/// The words of a text, which white space parts.
pub fn split_words(s: &str) -> (r: Vec<String>)
    ensures
        texts(r@) == words(s@),
{
    let chars = chars_of(s);
    let mut done: Vec<String> = Vec::new();
    let mut open: Vec<char> = Vec::new();
    let mut i: usize = 0;
    assert(chars@.take(0) =~= Seq::empty());
    assert(texts(done@) =~= Seq::empty());
    assert(open@ =~= Seq::empty());
    while i < chars.len()
        invariant
            i <= chars.len(),
            (texts(done@), open@) == cut(chars@.take(i as int)),
        decreases chars.len() - i,
    {
        assert(chars@.take(i + 1).drop_last() =~= chars@.take(i as int));
        if !is_white(chars[i]) {
            open.push(chars[i]);
        } else if open.len() > 0 {
            let w = string_of(&open);
            let ghost was = texts(done@);
            done.push(w);
            assert(texts(done@) =~= was.push(w@));
            open = Vec::new();
            assert(open@ =~= Seq::empty());
        }
        i += 1;
    }
    assert(chars@.take(i as int) =~= s@);
    if open.len() > 0 {
        let w = string_of(&open);
        let ghost was = texts(done@);
        done.push(w);
        assert(texts(done@) =~= was.push(w@));
    }
    done
}

/// The arguments for opening a file. The configured command goes before the server's
/// `$EDITOR`; one that names nothing falls back to the last resort.
pub open spec fn editing(
    command: Option<Seq<char>>,
    from_env: Option<Seq<char>>,
    path: Seq<char>,
) -> Seq<Seq<char>> {
    let named = match (command, from_env) {
        (Some(c), _) => words(c),
        (None, Some(e)) => words(e),
        (None, None) => Seq::empty(),
    };
    if named.len() == 0 {
        seq![FALLBACK_EDITOR@, path]
    } else {
        named.push(path)
    }
}

/// The arguments for opening a file: the editor, with its flags, and the path, which is
/// never split.
pub fn editor_argv(command: Option<&str>, from_env: Option<&str>, path: &str) -> (r: Vec<String>)
    ensures
        texts(r@) == editing(opt_str(command), opt_str(from_env), path@),
{
    let mut argv: Vec<String> = match (command, from_env) {
        (Some(c), _) => split_words(c),
        (None, Some(e)) => split_words(e),
        (None, None) => Vec::new(),
    };
    let ghost named = texts(argv@);
    assert(command is None && from_env is None ==> named =~= Seq::empty());
    if argv.len() == 0 {
        argv.push(FALLBACK_EDITOR.to_owned());
        argv.push(path.to_owned());
        assert(named.len() == 0);
        assert(texts(argv@) =~= seq![FALLBACK_EDITOR@, path@]);
        return argv;
    }
    assert(named.len() > 0);
    argv.push(path.to_owned());
    assert(texts(argv@) =~= named.push(path@));
    argv
}

// ---------------------------------------------------------------------------
// Laws
// ---------------------------------------------------------------------------

/// The order of texts: none is before itself, one of two different texts is before the
/// other and not the other way round, and what is before something is before what that is
/// before.
pub proof fn law_texts_have_an_order(a: Seq<char>, b: Seq<char>, c: Seq<char>)
    ensures
        !text_before(a, a),
        !(text_before(a, b) && text_before(b, a)),
        a != b ==> text_before(a, b) || text_before(b, a),
        text_before(a, b) && text_before(b, c) ==> text_before(a, c),
    decreases a.len() + b.len() + c.len(),
{
    if a.len() == 0 && b.len() == 0 {
        assert(a =~= b);
    }
    if a.len() > 0 {
        let cs = if c.len() > 0 { c.skip(1) } else { c };
        let bs = if b.len() > 0 { b.skip(1) } else { b };
        law_texts_have_an_order(a.skip(1), bs, cs);
        if b.len() > 0 && a[0] == b[0] && a.skip(1) == b.skip(1) {
            assert(a =~= seq![a[0]] + a.skip(1));
            assert(b =~= seq![b[0]] + b.skip(1));
        }
    }
}

/// The order of a listing is strict and total: of two entries that differ in kind or name
/// one is above the other, and not the other way round.
pub proof fn law_any_two_entries_have_an_order(a: Keyed, b: Keyed, c: Keyed)
    ensures
        !above(a, a),
        !(above(a, b) && above(b, a)),
        a.0.is_dir != b.0.is_dir || a.0.name != b.0.name ==> above(a, b) || above(b, a),
        above(a, b) && above(b, c) ==> above(a, c),
        above(a, b) && !above(c, b) ==> above(a, c),
{
    law_texts_have_an_order(a.1, b.1, c.1);
    law_texts_have_an_order(b.1, c.1, a.1);
    law_texts_have_an_order(a.1, c.1, b.1);
    law_texts_have_an_order(c.1, b.1, a.1);
    law_texts_have_an_order(a.0.name, b.0.name, c.0.name);
    law_texts_have_an_order(b.0.name, c.0.name, a.0.name);
    law_texts_have_an_order(a.0.name, c.0.name, b.0.name);
}

/// A list of which no entry is above one that is shown before it.
pub open spec fn in_order(list: Seq<Keyed>) -> bool {
    forall|i: int, j: int| 0 <= i < j < list.len() ==> !above(#[trigger] list[j], #[trigger] list[i])
}

proof fn lemma_placed(list: Seq<Keyed>, e: Keyed, n: int)
    requires
        in_order(list),
        0 <= n <= list.len(),
    ensures
        forall|k: int| place(list, e, n) <= k < n ==> above(e, #[trigger] list[k]),
        forall|k: int| 0 <= k < place(list, e, n) ==> !above(e, #[trigger] list[k]),
    decreases n,
{
    if n > 0 {
        if above(e, list[n - 1]) {
            lemma_placed(list, e, n - 1);
        } else {
            assert forall|k: int| 0 <= k < n implies !above(e, #[trigger] list[k]) by {
                if above(e, list[k]) && k < n - 1 {
                    law_any_two_entries_have_an_order(e, list[k], list[n - 1]);
                }
            }
        }
    }
}

/// A sorted listing holds exactly the entries that were given, and no entry is above one
/// that is shown before it.
pub proof fn law_a_listing_is_in_order(list: Seq<Keyed>)
    ensures
        in_order(arranged(list)),
        arranged(list).to_multiset() == list.to_multiset(),
        arranged(list).len() == list.len(),
    decreases list.len(),
{
    broadcast use vstd::seq_lib::group_to_multiset_ensures;

    if list.len() > 0 {
        let e = list.last();
        let rest = arranged(list.drop_last());
        law_a_listing_is_in_order(list.drop_last());
        let n = rest.len() as int;
        lemma_place(rest, e, n);
        lemma_placed(rest, e, n);
        let p = place(rest, e, n);
        let all = rest.insert(p, e);
        assert forall|i: int, j: int| 0 <= i < j < all.len() implies !above(
            #[trigger] all[j],
            #[trigger] all[i],
        ) by {
            if i == p {
                law_any_two_entries_have_an_order(e, rest[j - 1], e);
            }
        }
        vstd::seq_lib::to_multiset_insert(rest, p, e);
        assert(list =~= list.drop_last().push(e));
        vstd::seq_lib::to_multiset_build(list.drop_last(), e);
    } else {
        assert(arranged(list) =~= list);
    }
}

/// No two entries of the list have the same kind and name.
pub open spec fn all_differ(list: Seq<Keyed>) -> bool {
    forall|i: int, j: int|
        0 <= i < j < list.len() ==> (#[trigger] list[i]).0.is_dir != (#[trigger] list[j]).0.is_dir
            || list[i].0.name != list[j].0.name
}

/// Directories are listed before everything else. Among those of a kind the order is that of
/// the names in lower case, and where these agree that of the names.
pub proof fn law_directories_come_first(list: Seq<Keyed>, i: int, j: int)
    requires
        0 <= i < j < list.len(),
    ensures
        ({
            let a = arranged(list)[i];
            let b = arranged(list)[j];
            &&& b.0.is_dir ==> a.0.is_dir
            &&& a.0.is_dir == b.0.is_dir ==> a.1 == b.1 || text_before(a.1, b.1)
            &&& a.0.is_dir == b.0.is_dir && a.1 == b.1 ==> a.0.name == b.0.name || text_before(
                a.0.name,
                b.0.name,
            )
        }),
{
    law_a_listing_is_in_order(list);
    let a = arranged(list)[i];
    let b = arranged(list)[j];
    assert(!above(b, a));
    law_texts_have_an_order(a.1, b.1, a.1);
    law_texts_have_an_order(a.0.name, b.0.name, a.0.name);
}

/// A text comes before another one where it has the smaller character at the first place
/// at which they differ, or where the other one goes on behind its end.
pub proof fn law_the_first_difference_decides(a: Seq<char>, b: Seq<char>, k: int)
    requires
        0 <= k <= a.len(),
        k <= b.len(),
        a.take(k) == b.take(k),
    ensures
        k < a.len() && k < b.len() && a[k] != b[k] ==> text_before(a, b) == (a[k] < b[k]),
        k == a.len() ==> text_before(a, b) == (k < b.len()),
    decreases k,
{
    if k > 0 {
        assert(a[0] == a.take(k)[0] && b[0] == b.take(k)[0]);
        assert(a.skip(1).take(k - 1) =~= a.take(k).skip(1));
        assert(b.skip(1).take(k - 1) =~= b.take(k).skip(1));
        law_the_first_difference_decides(a.skip(1), b.skip(1), k - 1);
    }
}

/// A link to a directory counts as a directory, and a broken link as neither a directory nor
/// anything with a size. Where the system did not say that an item is a link it is none.
pub proof fn law_an_entry_is_what_it_leads_to(f: Found)
    ensures
        f.as_entry().name == f.name@,
        f.target matches Some(t) ==> f.as_entry().is_dir == t.is_dir && f.as_entry().size == t.size,
        f.target is None ==> !f.as_entry().is_dir && f.as_entry().size == 0,
        f.as_entry().is_symlink <==> f.is_symlink == Some(true),
{
}

/// Every item that could be read is listed, each once and with nothing besides.
pub proof fn law_every_readable_item_is_listed(items: Seq<Option<Found>>, n: int) -> (at: Seq<int>)
    requires
        0 <= n <= items.len(),
    ensures
        ({
            let own = readable(items, n);
            &&& at.len() == own.len()
            &&& forall|k: int|
                0 <= k < at.len() ==> 0 <= #[trigger] at[k] < n && (items[at[k]] matches Some(f)
                    && own[k] == f.as_entry())
            &&& forall|k: int, m: int| 0 <= k < m < at.len() ==> #[trigger] at[k] < #[trigger] at[m]
            &&& forall|i: int| 0 <= i < n && #[trigger] items[i] is Some ==> at.contains(i)
        }),
    decreases n,
{
    if n <= 0 {
        Seq::empty()
    } else {
        let before = law_every_readable_item_is_listed(items, n - 1);
        if items[n - 1] is Some {
            let at = before.push(n - 1);
            assert forall|i: int| 0 <= i < n && #[trigger] items[i] is Some implies at.contains(
                i,
            ) by {
                if i < n - 1 {
                    let j = choose|j: int| 0 <= j < before.len() && before[j] == i;
                    assert(at[j] == i);
                } else {
                    assert(at[before.len() as int] == i);
                }
            }
            at
        } else {
            before
        }
    }
}

/// The listing does not depend on the order in which the file system gives the entries, so
/// a refresh does not move them.
pub proof fn law_a_refresh_moves_nothing(a: Seq<Keyed>, b: Seq<Keyed>)
    requires
        a.to_multiset() == b.to_multiset(),
        all_differ(a),
    ensures
        arranged(a) == arranged(b),
{
    law_a_listing_is_in_order(a);
    law_a_listing_is_in_order(b);
    lemma_differ_in_any_order(a, arranged(a));
    lemma_same_order(arranged(a), arranged(b));
}

proof fn lemma_occurs(list: Seq<Keyed>, i: int)
    requires
        0 <= i < list.len(),
    ensures
        list.to_multiset().count(list[i]) > 0,
{
    list.to_multiset_ensures();
    assert(list.contains(list[i]));
}

proof fn lemma_differ_in_any_order(a: Seq<Keyed>, b: Seq<Keyed>)
    requires
        a.to_multiset() == b.to_multiset(),
        all_differ(a),
    ensures
        all_differ(b),
{
    assert forall|i: int, j: int| 0 <= i < j < b.len() implies (#[trigger] b[i]).0.is_dir != (
    #[trigger] b[j]).0.is_dir || b[i].0.name != b[j].0.name by {
        a.to_multiset_ensures();
        b.to_multiset_ensures();
        lemma_occurs(b, i);
        lemma_occurs(b, j);
        assert(a.contains(b[i]));
        assert(a.contains(b[j]));
        let x = choose|x: int| 0 <= x < a.len() && a[x] == b[i];
        let y = choose|y: int| 0 <= y < a.len() && a[y] == b[j];
        if b[i] == b[j] {
            assert(a.no_duplicates()) by {
                assert forall|p: int, q: int| 0 <= p < q < a.len() implies a[p] != a[q] by {}
            }
            a.lemma_multiset_has_no_duplicates();
            b.lemma_multiset_has_no_duplicates_conv();
        } else {
            if x < y {
                assert(a[x].0.is_dir != a[y].0.is_dir || a[x].0.name != a[y].0.name);
            } else {
                assert(a[y].0.is_dir != a[x].0.is_dir || a[y].0.name != a[x].0.name);
            }
        }
    }
}

proof fn lemma_same_order(a: Seq<Keyed>, b: Seq<Keyed>)
    requires
        a.to_multiset() == b.to_multiset(),
        all_differ(a),
        in_order(a),
        in_order(b),
    ensures
        a == b,
    decreases a.len(),
{
    a.to_multiset_ensures();
    b.to_multiset_ensures();
    assert(a.len() == b.len());
    if a.len() == 0 {
        assert(a =~= b);
    } else {
        let x = a.last();
        let y = b.last();
        lemma_differ_in_any_order(a, b);
        lemma_occurs(a, a.len() - 1);
        lemma_occurs(b, b.len() - 1);
        assert(b.contains(x));
        assert(a.contains(y));
        let i = choose|i: int| 0 <= i < b.len() && b[i] == x;
        let j = choose|j: int| 0 <= j < a.len() && a[j] == y;
        if x != y {
            assert(!above(b[b.len() - 1], b[i]));
            assert(!above(a[a.len() - 1], a[j]));
            assert(a[j].0.is_dir != a[a.len() - 1].0.is_dir || a[j].0.name != a[a.len()
                - 1].0.name);
            law_any_two_entries_have_an_order(x, y, x);
        }
        assert(a =~= a.drop_last().push(x));
        assert(b =~= b.drop_last().push(x));
        vstd::seq_lib::to_multiset_build(a.drop_last(), x);
        vstd::seq_lib::to_multiset_build(b.drop_last(), x);
        assert(a.drop_last().to_multiset() =~= b.drop_last().to_multiset()) by {
            assert(a.to_multiset() == a.drop_last().to_multiset().insert(x));
            assert(b.to_multiset() == b.drop_last().to_multiset().insert(x));
            assert(a.to_multiset().remove(x) =~= a.drop_last().to_multiset());
            assert(b.to_multiset().remove(x) =~= b.drop_last().to_multiset());
        }
        assert forall|p: int, q: int| 0 <= p < q < a.drop_last().len() implies !above(
            #[trigger] a.drop_last()[q],
            #[trigger] a.drop_last()[p],
        ) by {
            assert(!above(a[q], a[p]));
        }
        assert forall|p: int, q: int| 0 <= p < q < b.drop_last().len() implies !above(
            #[trigger] b.drop_last()[q],
            #[trigger] b.drop_last()[p],
        ) by {
            assert(!above(b[q], b[p]));
        }
        assert(all_differ(a.drop_last())) by {
            assert forall|p: int, q: int| 0 <= p < q < a.drop_last().len() implies (
            #[trigger] a.drop_last()[p]).0.is_dir != (#[trigger] a.drop_last()[q]).0.is_dir
                || a.drop_last()[p].0.name != a.drop_last()[q].0.name by {
                assert(a[p].0.is_dir != a[q].0.is_dir || a[p].0.name != a[q].0.name);
            }
        }
        lemma_same_order(a.drop_last(), b.drop_last());
    }
}

/// A listing never looks empty because it failed: a failure has a reason and no entries,
/// and without one every readable item is there or the listing says that some are missing.
pub proof fn law_a_failure_does_not_look_empty(
    path: Seq<char>,
    read: Result<Seq<Option<Found>>, Seq<char>>,
)
    ensures
        listed(path, read).error is Some <==> !absolute(path) || read is Err,
        listed(path, read).error is Some ==> listed(path, read).entries.len() == 0,
        listed(path, read).error is None ==> listed(path, read).entries.len() <= MAX_ENTRIES,
        listed(path, read).error is None && !listed(path, read).truncated ==> listed(
            path,
            read,
        ).entries.len() == readable(read->Ok_0, read->Ok_0.len() as int).len(),
        listed(path, read).truncated ==> listed(path, read).entries.len() == MAX_ENTRIES,
{
    if let Ok(items) = read {
        law_a_listing_is_in_order(with_lower_case(carried(items)));
    }
}

/// The editor is started with at least one argument besides the file, and the file is the
/// last one, in one piece.
pub proof fn law_the_file_is_one_argument(
    command: Option<Seq<char>>,
    from_env: Option<Seq<char>>,
    path: Seq<char>,
)
    ensures
        editing(command, from_env, path).len() >= 2,
        editing(command, from_env, path).last() == path,
{
}

/// A text without white space.
pub open spec fn solid(word: Seq<char>) -> bool {
    forall|j: int| 0 <= j < word.len() ==> !white(#[trigger] word[j])
}

proof fn lemma_cut(s: Seq<char>)
    ensures
        forall|i: int|
            0 <= i < cut(s).0.len() ==> (#[trigger] cut(s).0[i]).len() > 0 && solid(cut(s).0[i]),
        solid(cut(s).1),
    decreases s.len(),
{
    if s.len() > 0 {
        let (done, open) = cut(s.drop_last());
        lemma_cut(s.drop_last());
        assert forall|i: int| 0 <= i < cut(s).0.len() implies (#[trigger] cut(s).0[i]).len() > 0
            && solid(cut(s).0[i]) by {
            if i < done.len() {
                assert(done[i].len() > 0 && solid(done[i]));
            }
        }
    }
}

/// The configured editor is started, or else the one of the environment, word by word; where
/// neither names one it is vi.
pub proof fn law_the_configured_editor_comes_first(
    command: Option<Seq<char>>,
    from_env: Option<Seq<char>>,
    path: Seq<char>,
)
    ensures
        ({
            let e = editing(command, from_env, path);
            let named = if command is Some {
                words(command->0)
            } else if from_env is Some {
                words(from_env->0)
            } else {
                Seq::empty()
            };
            &&& named.len() > 0 ==> e.drop_last() == named
            &&& named.len() == 0 ==> e.drop_last() == seq!["vi"@]
        }),
{
    let e = editing(command, from_env, path);
    let named = if command is Some {
        words(command->0)
    } else if from_env is Some {
        words(from_env->0)
    } else {
        Seq::empty()
    };
    if named.len() > 0 {
        assert(e.drop_last() =~= named);
    } else {
        assert(e.drop_last() =~= seq![FALLBACK_EDITOR@]);
    }
}

/// No word is empty or holds white space.
pub proof fn law_words_hold_no_white_space(s: Seq<char>, i: int)
    requires
        0 <= i < words(s).len(),
    ensures
        words(s)[i].len() > 0,
        solid(words(s)[i]),
{
    lemma_cut(s);
}

} // verus!
