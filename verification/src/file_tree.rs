//! The file-tree model: one entry per file or directory, children in
//! name order.
//!
//! The walk over the real file system stays outside; this module holds the
//! rules the walk applies — how a path's display name and extension are
//! read, which entries are hidden, and the name ordering of children.

use vstd::multiset::Multiset;
use vstd::prelude::*;
use vstd::seq_lib::lemma_multiset_commutative;
use vstd::string::{StrSliceExecFns, StringExecFns};

verus! {

/// One file or directory in the project tree.
pub struct FileEntry {
    pub name: String,
    pub ext: String,
    pub is_dir: bool,
    pub path: String,
    pub children: Vec<FileEntry>,
}

/// The text after the last occurrence of `c`: the whole of `s` when `c`
/// does not occur, empty when `s` ends with `c`.
pub open spec fn spec_suffix_after(s: Seq<char>, c: char) -> Seq<char>
    decreases s.len(),
{
    if s.len() == 0 {
        s
    } else if s[s.len() - 1] == c {
        Seq::empty()
    } else {
        spec_suffix_after(s.drop_last(), c).push(s[s.len() - 1])
    }
}

/// A path without its trailing separators.
pub open spec fn spec_strip_tail_seps(path: Seq<char>) -> Seq<char>
    decreases path.len(),
{
    if path.len() > 0 && path[path.len() - 1] == '/' {
        spec_strip_tail_seps(path.drop_last())
    } else {
        path
    }
}

/// The display name a path carries: the text after the last separator,
/// trailing separators not counting.
pub open spec fn spec_file_name(path: Seq<char>) -> Seq<char> {
    spec_suffix_after(spec_strip_tail_seps(path), '/')
}

/// The extension a display name carries: the text after the last dot —
/// except that a name whose only dot is its leading one is a hidden name
/// with no extension, and a name with no dot has none either.
pub open spec fn spec_extension(name: Seq<char>) -> Seq<char> {
    if name.len() > 0 && name[0] == '.' && !name.drop_first().contains('.') {
        Seq::empty()
    } else if name.contains('.') {
        spec_suffix_after(name, '.')
    } else {
        Seq::empty()
    }
}

/// When `c` last occurs at `k`, the suffix after `c` is what follows `k`.
pub proof fn lemma_suffix_after_at(s: Seq<char>, c: char, k: int)
    requires
        0 <= k < s.len(),
        s[k] == c,
        forall|j: int| k < j < s.len() ==> s[j] != c,
    ensures
        spec_suffix_after(s, c) == s.subrange(k + 1, s.len() as int),
    decreases s.len(),
{
    if k == s.len() - 1 {
        assert(s.subrange(k + 1, s.len() as int) =~= Seq::<char>::empty());
    } else {
        lemma_suffix_after_at(s.drop_last(), c, k);
        assert(s.drop_last().subrange(k + 1, s.len() - 1).push(s[s.len() - 1]) =~= s.subrange(
            k + 1,
            s.len() as int,
        ));
    }
}

/// When `c` does not occur, the suffix after `c` is the whole text.
pub proof fn lemma_suffix_after_absent(s: Seq<char>, c: char)
    requires
        forall|j: int| 0 <= j < s.len() ==> s[j] != c,
    ensures
        spec_suffix_after(s, c) == s,
    decreases s.len(),
{
    if s.len() > 0 {
        lemma_suffix_after_absent(s.drop_last(), c);
        assert(s.drop_last().push(s[s.len() - 1]) =~= s);
    }
}

/// Lexicographic order on texts, by character value.
pub open spec fn spec_str_le(a: Seq<char>, b: Seq<char>) -> bool
    decreases a.len(),
{
    if a.len() == 0 {
        true
    } else if b.len() == 0 {
        false
    } else if a[0] != b[0] {
        a[0] < b[0]
    } else {
        spec_str_le(a.drop_first(), b.drop_first())
    }
}

/// The order is total.
pub proof fn lemma_str_le_total(a: Seq<char>, b: Seq<char>)
    ensures
        spec_str_le(a, b) || spec_str_le(b, a),
    decreases a.len(),
{
    if a.len() > 0 && b.len() > 0 && a[0] == b[0] {
        lemma_str_le_total(a.drop_first(), b.drop_first());
    }
}

/// The order is transitive.
pub proof fn lemma_str_le_trans(a: Seq<char>, b: Seq<char>, c: Seq<char>)
    requires
        spec_str_le(a, b),
        spec_str_le(b, c),
    ensures
        spec_str_le(a, c),
    decreases a.len(),
{
    if a.len() > 0 && b.len() > 0 && c.len() > 0 && a[0] == b[0] && b[0] == c[0] {
        lemma_str_le_trans(a.drop_first(), b.drop_first(), c.drop_first());
    }
}

/// Whether `a` comes no later than `b` in name order.
pub fn str_le(a: &String, b: &String) -> (r: bool)
    ensures
        r == spec_str_le(a@, b@),
{
    let an = a.as_str().unicode_len();
    let bn = b.as_str().unicode_len();
    let mut i: usize = 0;
    proof {
        assert(a@.skip(0) =~= a@);
        assert(b@.skip(0) =~= b@);
    }
    loop
        invariant
            i <= an,
            i <= bn,
            an == a@.len(),
            bn == b@.len(),
            forall|j: int| 0 <= j < i ==> a@[j] == b@[j],
            spec_str_le(a@, b@) == spec_str_le(a@.skip(i as int), b@.skip(i as int)),
        decreases an - i,
    {
        if i >= an {
            proof {
                assert(a@.skip(i as int).len() == 0);
            }
            return true;
        }
        if i >= bn {
            proof {
                assert(b@.skip(i as int).len() == 0 && a@.skip(i as int).len() > 0);
            }
            return false;
        }
        let ca = a.as_str().get_char(i);
        let cb = b.as_str().get_char(i);
        proof {
            assert(a@.skip(i as int)[0] == a@[i as int]);
            assert(b@.skip(i as int)[0] == b@[i as int]);
            assert(a@.skip(i as int).drop_first() =~= a@.skip(i as int + 1));
            assert(b@.skip(i as int).drop_first() =~= b@.skip(i as int + 1));
        }
        if ca != cb {
            return ca < cb;
        }
        i = i + 1;
    }
}

/// The display name a path carries.
pub fn file_name_of(path: &str) -> (r: String)
    ensures
        r@ == spec_file_name(path@),
{
    let n = path.unicode_len();
    let mut e: usize = n;
    proof {
        assert(path@.take(n as int) =~= path@);
    }
    while e > 0 && path.get_char(e - 1) == '/'
        invariant
            e <= n,
            n == path@.len(),
            spec_strip_tail_seps(path@) == spec_strip_tail_seps(path@.take(e as int)),
        decreases e,
    {
        proof {
            assert(path@.take(e as int).take(e as int - 1) =~= path@.take(e as int - 1));
        }
        e = e - 1;
    }
    let ghost trimmed = path@.take(e as int);
    proof {
        assert(spec_strip_tail_seps(path@) == trimmed);
    }
    let mut k: usize = e;
    while k > 0 && path.get_char(k - 1) != '/'
        invariant
            k <= e <= n,
            n == path@.len(),
            forall|j: int| k <= j < e ==> path@[j] != '/',
        decreases k,
    {
        k = k - 1;
    }
    proof {
        assert(forall|j: int| 0 <= j < trimmed.len() ==> trimmed[j] == path@[j]);
        if k == 0 {
            lemma_suffix_after_absent(trimmed, '/');
        } else {
            lemma_suffix_after_at(trimmed, '/', k as int - 1);
        }
        assert(trimmed.subrange(k as int, e as int) =~= path@.subrange(k as int, e as int));
        if k == 0 {
            assert(trimmed.subrange(0, e as int) =~= trimmed);
        }
    }
    String::from_str(path.substring_char(k, e))
}

impl FileEntry {
    /// A file entry read off a path: the display name is the text after
    /// the last separator (trailing separators not counting), the
    /// extension the text after the name's last dot — a leading-dot name
    /// with no other dot has none — and the path is kept whole.
    pub fn from_path(path: String) -> (r: FileEntry)
        ensures
            r.name@ == spec_file_name(path@),
            r.ext@ == spec_extension(r.name@),
            !r.is_dir,
            r.path@ == path@,
            r.children@ == Seq::<FileEntry>::empty(),
    {
        let name = file_name_of(path.as_str());
        let nn = name.as_str().unicode_len();
        let mut k2: usize = nn;
        while k2 > 0 && name.as_str().get_char(k2 - 1) != '.'
            invariant
                k2 <= nn,
                nn == name@.len(),
                forall|j: int| k2 <= j < nn ==> name@[j] != '.',
            decreases k2,
        {
            k2 = k2 - 1;
        }
        let ext = if k2 <= 1 {
            proof {
                if k2 == 0 {
                    assert(forall|j: int| 0 <= j < name@.len() ==> name@[j] != '.');
                    assert(!name@.contains('.'));
                } else {
                    assert(name@[0] == '.');
                    assert(forall|j: int|
                        0 <= j < name@.drop_first().len() ==> name@.drop_first()[j] == name@[j
                            + 1]);
                    assert(!name@.drop_first().contains('.'));
                }
            }
            String::new()
        } else {
            proof {
                lemma_suffix_after_at(name@, '.', k2 as int - 1);
                assert(name@.contains('.')) by {
                    assert(name@[k2 as int - 1] == '.');
                }
                if name@[0] == '.' {
                    assert(name@.drop_first()[k2 as int - 2] == '.');
                    assert(name@.drop_first().contains('.'));
                }
            }
            String::from_str(name.as_str().substring_char(k2, nn))
        };
        let children: Vec<FileEntry> = Vec::new();
        proof {
            assert(children@ =~= Seq::<FileEntry>::empty());
        }
        FileEntry { name, ext, is_dir: false, path, children }
    }

    /// A bare named entry, with nothing else known of it.
    pub fn new(name: String) -> (r: FileEntry)
        ensures
            r.name@ == name@,
            r.ext@ == Seq::<char>::empty(),
            !r.is_dir,
            r.path@ == Seq::<char>::empty(),
            r.children@ == Seq::<FileEntry>::empty(),
    {
        let children: Vec<FileEntry> = Vec::new();
        proof {
            assert(children@ =~= Seq::<FileEntry>::empty());
        }
        FileEntry { name, ext: String::new(), is_dir: false, path: String::new(), children }
    }

    /// The entry with one more child at the end.
    pub fn add_child(self, child: FileEntry) -> (r: FileEntry)
        ensures
            r.name == self.name,
            r.ext == self.ext,
            r.is_dir == self.is_dir,
            r.path == self.path,
            r.children@ == self.children@.push(child),
    {
        let mut e = self;
        e.children.push(child);
        e
    }

    /// The root of a project tree: the project title over the entries the
    /// walk of the project directory produced.
    pub fn from_dir(title: String, entries: Vec<FileEntry>) -> (r: FileEntry)
        ensures
            r.name@ == title@,
            !r.is_dir,
            r.children@ == entries@,
    {
        let mut root = FileEntry::new(title);
        root.children = entries;
        root
    }

    /// How many children the entry has.
    pub fn children_count(&self) -> (r: usize)
        ensures
            r == self.children@.len(),
    {
        self.children.len()
    }

    /// Whether a directory entry with this display name is hidden from the
    /// tree: dot-directories are, and of plain files only the Finder's
    /// metadata file is.
    pub fn is_hidden(name: &String, is_dir: bool) -> (r: bool)
        ensures
            is_dir ==> r == (name@.len() > 0 && name@[0] == '.'),
            !is_dir ==> r == (name@ == ".DS_Store"@),
    {
        if is_dir {
            if name.as_str().unicode_len() == 0 {
                return false;
            }
            name.as_str().get_char(0) == '.'
        } else {
            let pat: &str = ".DS_Store";
            let p = String::from_str(pat);
            name.eq(&p)
        }
    }
}

impl Default for FileEntry {
    /// A nameless file entry.
    fn default() -> (r: FileEntry)
        ensures
            r.name@ == Seq::<char>::empty(),
            r.ext@ == Seq::<char>::empty(),
            !r.is_dir,
            r.path@ == Seq::<char>::empty(),
            r.children@ == Seq::<FileEntry>::empty(),
    {
        FileEntry::new(String::new())
    }
}

/// The coarse equality the tree view refreshes by: equal display names
/// and, child by child, the same again.
pub open spec fn spec_same(a: FileEntry, b: FileEntry) -> bool
    decreases a, 1int,
{
    a.name@ == b.name@ && a.children@.len() == b.children@.len() && spec_same_children(
        a.children@,
        b.children@,
    )
}

/// Child-by-child coarse equality.
pub open spec fn spec_same_children(a: Seq<FileEntry>, b: Seq<FileEntry>) -> bool
    decreases a, 0int,
{
    if a.len() == 0 || b.len() == 0 {
        true
    } else {
        spec_same(a[0], b[0]) && spec_same_children(a.drop_first(), b.drop_first())
    }
}

impl FileEntry {
    /// Whether two entries look the same to the tree view.
    pub fn same(&self, other: &FileEntry) -> (r: bool)
        ensures
            r == spec_same(*self, *other),
        decreases *self,
    {
        let a = self.name.eq(&other.name);
        if !a {
            return false;
        }
        let n = self.children.len();
        if n != other.children.len() {
            return false;
        }
        let mut i: usize = 0;
        while i < n
            invariant
                i <= n,
                n == self.children@.len() == other.children@.len(),
                self.name@ == other.name@,
                forall|j: int| 0 <= j < i ==> spec_same(self.children@[j], other.children@[j]),
            decreases n - i,
        {
            proof {
                assert(decreases_to!(*self => self.children));
                assert(decreases_to!(self.children => self.children@));
                assert(decreases_to!(self.children@ => self.children@[i as int]));
                assert(decreases_to!(*self => self.children@[i as int]));
            }
            if !self.children[i].same(&other.children[i]) {
                proof {
                    lemma_same_children_differ(
                        self.children@,
                        other.children@,
                        i as int,
                    );
                }
                return false;
            }
            i = i + 1;
        }
        proof {
            lemma_same_children_all(self.children@, other.children@);
        }
        true
    }
}

/// When every pair of children looks the same, the lists do.
proof fn lemma_same_children_all(a: Seq<FileEntry>, b: Seq<FileEntry>)
    requires
        a.len() == b.len(),
        forall|j: int| 0 <= j < a.len() ==> spec_same(a[j], b[j]),
    ensures
        spec_same_children(a, b),
    decreases a.len(),
{
    if a.len() > 0 {
        assert(forall|j: int| 0 <= j < a.drop_first().len() ==> a.drop_first()[j] == a[j + 1]);
        assert(forall|j: int| 0 <= j < b.drop_first().len() ==> b.drop_first()[j] == b[j + 1]);
        lemma_same_children_all(a.drop_first(), b.drop_first());
    }
}

/// One differing pair makes the lists differ.
proof fn lemma_same_children_differ(a: Seq<FileEntry>, b: Seq<FileEntry>, i: int)
    requires
        a.len() == b.len(),
        0 <= i < a.len(),
        !spec_same(a[i], b[i]),
    ensures
        !spec_same_children(a, b),
    decreases i,
{
    if i > 0 {
        assert(forall|j: int| 0 <= j < a.drop_first().len() ==> a.drop_first()[j] == a[j + 1]);
        assert(forall|j: int| 0 <= j < b.drop_first().len() ==> b.drop_first()[j] == b[j + 1]);
        lemma_same_children_differ(a.drop_first(), b.drop_first(), i - 1);
    }
}

/// Inserting anywhere adds one occurrence to the multiset.
proof fn lemma_insert_multiset<A>(s: Seq<A>, i: int, x: A)
    requires
        0 <= i <= s.len(),
    ensures
        s.insert(i, x).to_multiset() =~= s.to_multiset().insert(x),
{
    broadcast use vstd::seq_lib::group_to_multiset_ensures;

    assert(s.insert(i, x) =~= s.take(i) + (seq![x] + s.skip(i)));
    assert(s =~= s.take(i) + s.skip(i));
    lemma_multiset_commutative(s.take(i), seq![x] + s.skip(i));
    lemma_multiset_commutative(seq![x], s.skip(i));
    lemma_multiset_commutative(s.take(i), s.skip(i));
    assert(seq![x] =~= Seq::<A>::empty().push(x));
    assert(Seq::<A>::empty().push(x).to_multiset() =~= Multiset::<A>::empty().insert(x));
}

/// Name order over a whole sequence of entries.
pub open spec fn spec_sorted_by_name(s: Seq<FileEntry>) -> bool {
    forall|i: int, j: int| 0 <= i < j < s.len() ==> spec_str_le(s[i].name@, s[j].name@)
}

/// The entries in name order: the same entries — the multiset is kept —
/// sorted by display name, as the tree shows them.
pub fn sort_entries(entries: Vec<FileEntry>) -> (r: Vec<FileEntry>)
    ensures
        spec_sorted_by_name(r@),
        r@.to_multiset() == entries@.to_multiset(),
{
    broadcast use vstd::seq_lib::group_to_multiset_ensures;

    let mut entries = entries;
    let mut out: Vec<FileEntry> = Vec::new();
    proof {
        assert(out@.to_multiset() =~= Multiset::<FileEntry>::empty());
    }
    let ghost orig = entries@;
    while entries.len() > 0
        invariant
            spec_sorted_by_name(out@),
            out@.to_multiset().add(entries@.to_multiset()) == orig.to_multiset(),
        decreases entries@.len(),
    {
        let ghost prev = entries@;
        let x = entries.pop().unwrap();
        proof {
            broadcast use vstd::seq_lib::group_to_multiset_ensures;

            assert(prev =~= entries@.push(x));
            assert(prev.to_multiset() =~= entries@.to_multiset().insert(x));
        }
        let n = out.len();
        let mut i: usize = 0;
        while i < n
            invariant_except_break
                i <= n,
                n == out@.len(),
                forall|j: int| 0 <= j < i ==> !spec_str_le(x.name@, out@[j].name@),
            ensures
                i <= n,
                n == out@.len(),
                forall|j: int| 0 <= j < i ==> !spec_str_le(x.name@, out@[j].name@),
                i < n ==> spec_str_le(x.name@, out@[i as int].name@),
            decreases n - i,
        {
            if str_le(&x.name, &out[i].name) {
                break;
            }
            i = i + 1;
        }
        let ghost oldout = out@;
        proof {
            broadcast use vstd::seq_lib::group_to_multiset_ensures;

            lemma_insert_multiset(out@, i as int, x);
        }
        out.insert(i, x);
        proof {
            assert forall|a: int, b: int|
                0 <= a < b < out@.len() implies spec_str_le(out@[a].name@, out@[b].name@) by {
                if b < i {
                    assert(out@[a] == oldout[a] && out@[b] == oldout[b]);
                } else if a > i {
                    assert(out@[a] == oldout[a - 1] && out@[b] == oldout[b - 1]);
                } else if a < i && b == i {
                    lemma_str_le_total(x.name@, oldout[a].name@);
                } else if a < i && b > i {
                    assert(out@[a] == oldout[a] && out@[b] == oldout[b - 1]);
                } else if a == i && b > i {
                    if i < oldout.len() {
                        if b - 1 == i {
                            assert(out@[b] == oldout[i as int]);
                        } else {
                            lemma_str_le_trans(x.name@, oldout[i as int].name@, oldout[b
                                - 1].name@);
                        }
                    }
                }
            }
            assert(out@.to_multiset().add(entries@.to_multiset()) =~= orig.to_multiset());
        }
    }
    proof {
        assert(entries@.to_multiset() =~= Multiset::<FileEntry>::empty());
        assert(out@.to_multiset() =~= orig.to_multiset());
    }
    out
}

} // verus!
