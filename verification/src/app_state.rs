//! The editor's workspace model: the open project, the open file, and the
//! view bookkeeping the window needs.

use crate::codec::FrameV;
use crate::file_tree::FileEntry;
use crate::json::{jv, Json, JsonV, Member, MemberV};
use crate::router::{AvailableThemes, RpcOperations, Style};
use vstd::prelude::*;
use vstd::string::{StrSliceExecFns, StringExecFns, StringSliceAdditionalSpecFns};

verus! {

/// Count of leading non-separator characters.
pub open spec fn spec_comp_len(s: Seq<char>) -> int
    decreases s.len(),
{
    if s.len() > 0 && s[0] != '/' {
        1 + spec_comp_len(s.drop_first())
    } else {
        0
    }
}

/// The non-empty components of a path text, in order; separators, doubled
/// or not, only part them.
pub open spec fn spec_components(s: Seq<char>) -> Seq<Seq<char>>
    decreases s.len(),
{
    if s.len() == 0 {
        Seq::empty()
    } else if s[0] == '/' {
        spec_components(s.drop_first())
    } else {
        let k = spec_comp_len(s);
        if !(0 < k <= s.len()) {
            Seq::empty()
        } else {
            seq![s.take(k)] + spec_components(s.skip(k))
        }
    }
}

/// Components joined by the breadcrumb separator.
pub open spec fn spec_join_crumbs(comps: Seq<Seq<char>>) -> Seq<char>
    decreases comps.len(),
{
    if comps.len() == 0 {
        Seq::empty()
    } else if comps.len() == 1 {
        comps[0]
    } else {
        comps[0] + seq![' ', '>', ' '] + spec_join_crumbs(comps.drop_first())
    }
}

/// Components each led in by the breadcrumb separator.
pub open spec fn spec_flat_crumbs(comps: Seq<Seq<char>>) -> Seq<char>
    decreases comps.len(),
{
    if comps.len() == 0 {
        Seq::empty()
    } else {
        seq![' ', '>', ' '] + comps[0] + spec_flat_crumbs(comps.drop_first())
    }
}

proof fn lemma_flat_join(comps: Seq<Seq<char>>)
    requires
        comps.len() > 0,
    ensures
        spec_flat_crumbs(comps) == seq![' ', '>', ' '] + spec_join_crumbs(comps),
    decreases comps.len(),
{
    if comps.len() == 1 {
        assert(spec_flat_crumbs(comps.drop_first()) == Seq::<char>::empty());
        assert(spec_flat_crumbs(comps) =~= seq![' ', '>', ' '] + spec_join_crumbs(comps));
    } else {
        lemma_flat_join(comps.drop_first());
        assert(spec_flat_crumbs(comps) =~= seq![' ', '>', ' '] + spec_join_crumbs(comps));
    }
}

proof fn lemma_flat_snoc(comps: Seq<Seq<char>>, c: Seq<char>)
    ensures
        spec_flat_crumbs(comps.push(c)) == spec_flat_crumbs(comps) + seq![' ', '>', ' '] + c,
    decreases comps.len(),
{
    if comps.len() == 0 {
        assert(comps.push(c)[0] == c);
        assert(comps.push(c).drop_first() =~= Seq::<Seq<char>>::empty());
        assert(spec_flat_crumbs(Seq::<Seq<char>>::empty()) == Seq::<char>::empty());
        assert(spec_flat_crumbs(comps.push(c)) == seq![' ', '>', ' '] + c + Seq::<char>::empty());
        assert(spec_flat_crumbs(comps.push(c)) =~= spec_flat_crumbs(comps) + seq![' ', '>', ' ']
            + c);
    } else {
        assert(comps.push(c)[0] == comps[0]);
        assert(comps.push(c).drop_first() =~= comps.drop_first().push(c));
        lemma_flat_snoc(comps.drop_first(), c);
        assert(spec_flat_crumbs(comps.push(c)) =~= spec_flat_crumbs(comps) + seq![' ', '>', ' ']
            + c);
    }
}

/// Whether `s` opens with `p`.
pub open spec fn spec_starts_with(s: Seq<char>, p: Seq<char>) -> bool {
    s.len() >= p.len() && s.subrange(0, p.len() as int) == p
}

/// The navigation-bar text: the project name, and — when the open file
/// lies under the project directory on a component boundary — the file's
/// path inside it, component by component, as a breadcrumb trail.
pub open spec fn spec_relative_path(
    project: Seq<char>,
    dir: Seq<char>,
    file: Seq<char>,
) -> Seq<char> {
    if !spec_starts_with(file, dir) {
        project
    } else {
        let rem = file.skip(dir.len() as int);
        if rem.len() == 0 || rem[0] == '/' || dir.len() == 0 || dir[dir.len() - 1] == '/' {
            let comps = spec_components(rem);
            if comps.len() == 0 {
                project
            } else {
                project + seq![' ', '>', ' '] + spec_join_crumbs(comps)
            }
        } else {
            project
        }
    }
}

/// A component run is never longer than the text.
proof fn lemma_comp_len_bounds(s: Seq<char>)
    ensures
        0 <= spec_comp_len(s) <= s.len(),
    decreases s.len(),
{
    if s.len() > 0 && s[0] != '/' {
        lemma_comp_len_bounds(s.drop_first());
    }
}

/// End index of the path component starting at `i`.
fn scan_component(s: &str, i: usize, n: usize) -> (r: usize)
    requires
        i <= n,
        n == s@.len(),
    ensures
        i <= r <= n,
        r - i == spec_comp_len(s@.skip(i as int)),
    decreases n - i,
{
    if i < n && s.get_char(i) != '/' {
        let r = scan_component(s, i + 1, n);
        proof {
            assert(s@.skip(i as int)[0] == s@[i as int]);
            assert(s@.skip(i as int).drop_first() =~= s@.skip(i as int + 1));
        }
        r
    } else {
        proof {
            if i < n {
                assert(s@.skip(i as int)[0] == s@[i as int]);
            }
        }
        i
    }
}

/// The open project and file, with their texts.
pub struct Workspace {
    pub project: String,
    pub origin_text: String,
    pub input_text: String,
    pub char_count: usize,
    pub dir: String,
    pub current_file: String,
}

impl Workspace {
    /// The navigation-bar text for the open file: the project name,
    /// followed by the file's place inside the project directory as a
    /// breadcrumb trail, or the project name alone for a file outside it.
    pub fn relative_path(&self) -> (r: String)
        ensures
            r@ == spec_relative_path(self.project@, self.dir@, self.current_file@),
    {
        let f = self.current_file.as_str();
        let dn = self.dir.as_str().unicode_len();
        let fnn = f.unicode_len();
        if fnn < dn {
            return self.project.clone();
        }
        let mut i: usize = 0;
        while i < dn
            invariant
                i <= dn,
                dn == self.dir@.len(),
                fnn == self.current_file@.len(),
                dn <= fnn,
                forall|j: int| 0 <= j < i ==> self.current_file@[j] == self.dir@[j],
            decreases dn - i,
        {
            if self.current_file.as_str().get_char(i) != self.dir.as_str().get_char(i) {
                proof {
                    assert(self.current_file@.subrange(0, dn as int)[i as int] != self.dir@[
                        i as int
                    ]);
                }
                return self.project.clone();
            }
            i = i + 1;
        }
        proof {
            assert(self.current_file@.subrange(0, dn as int) =~= self.dir@);
        }
        let ghost rem = self.current_file@.skip(dn as int);
        let boundary = if dn == fnn {
            true
        } else if f.get_char(dn) == '/' {
            true
        } else if dn == 0 {
            true
        } else {
            self.dir.as_str().get_char(dn - 1) == '/'
        };
        proof {
            assert(rem.len() > 0 ==> rem[0] == self.current_file@[dn as int]);
        }
        if !boundary {
            return self.project.clone();
        }
        let mut out = self.project.clone();
        let ghost comps = spec_components(rem);
        let ghost mut done: Seq<Seq<char>> = Seq::empty();
        let mut p: usize = dn;
        proof {
            assert(rem =~= self.current_file@.skip(dn as int));
            assert(Seq::<Seq<char>>::empty() + comps =~= comps);
            assert(spec_flat_crumbs(done) == Seq::<char>::empty());
            assert(out@ =~= self.project@ + spec_flat_crumbs(done));
        }
        while p < fnn
            invariant
                dn <= p <= fnn,
                fnn == self.current_file@.len(),
                f@ == self.current_file@,
                comps == spec_components(self.current_file@.skip(dn as int)),
                comps == done + spec_components(self.current_file@.skip(p as int)),
                out@ == self.project@ + spec_flat_crumbs(done),
            decreases fnn - p,
        {
            let ghost here = self.current_file@.skip(p as int);
            let c = f.get_char(p);
            proof {
                assert(here[0] == self.current_file@[p as int]);
            }
            if c == '/' {
                proof {
                    assert(here.drop_first() =~= self.current_file@.skip(p as int + 1));
                }
                p = p + 1;
            } else {
                let ce = scan_component(f, p, fnn);
                proof {
                    lemma_comp_len_bounds(here.drop_first());
                    assert(spec_comp_len(here) >= 1);
                }
                out.append(" > ");
                let piece = f.substring_char(p, ce);
                out.append(piece);
                proof {
                    reveal_strlit(" > ");
                    let compv = self.current_file@.subrange(p as int, ce as int);
                    assert(piece@ =~= compv);
                    assert(here.take((ce - p) as int) =~= compv);
                    assert(here.skip((ce - p) as int) =~= self.current_file@.skip(ce as int));
                    assert(spec_components(here) == seq![compv] + spec_components(
                        self.current_file@.skip(ce as int),
                    ));
                    lemma_flat_snoc(done, compv);
                    assert(done.push(compv) + spec_components(self.current_file@.skip(ce as int))
                        =~= done + spec_components(self.current_file@.skip(p as int)));
                    done = done.push(compv);
                    assert(out@ =~= self.project@ + spec_flat_crumbs(done));
                }
                p = ce;
            }
        }
        proof {
            assert(self.current_file@.skip(fnn as int).len() == 0);
            assert(spec_components(self.current_file@.skip(fnn as int)) == Seq::<
                Seq<char>,
            >::empty());
            assert(done + Seq::<Seq<char>>::empty() =~= done);
            assert(comps == done);
            if comps.len() == 0 {
                assert(out@ =~= self.project@);
            } else {
                lemma_flat_join(comps);
                assert(out@ =~= self.project@ + seq![' ', '>', ' '] + spec_join_crumbs(comps));
            }
        }
        out
    }
}

impl Default for Workspace {
    /// An empty workspace: no project, no file, no text.
    fn default() -> (r: Workspace)
        ensures
            r.project@ == Seq::<char>::empty(),
            r.origin_text@ == Seq::<char>::empty(),
            r.input_text@ == Seq::<char>::empty(),
            r.char_count == 0,
            r.dir@ == Seq::<char>::empty(),
            r.current_file@ == Seq::<char>::empty(),
    {
        Workspace {
            project: String::new(),
            origin_text: String::new(),
            input_text: String::new(),
            char_count: 0,
            dir: String::new(),
            current_file: String::new(),
        }
    }
}

/// Presentation switches.
pub struct Params {
    pub debug_layout: bool,
}

impl Default for Params {
    /// Layout debugging starts off.
    fn default() -> (r: Params)
        ensures
            !r.debug_layout,
    {
        Params { debug_layout: false }
    }
}

/// One view the backend engine has open for us.
pub struct ViewState {
    pub id: usize,
    pub filename: Option<String>,
}

/// The views by the identifiers the engine assigned them, as they came
/// off the wire, and which one has focus.
pub struct ViewCore {
    pub focused: Option<Vec<u8>>,
    pub views: Vec<(Vec<u8>, ViewState)>,
}

impl ViewCore {
    /// The coarse equality the window refreshes by: same focus, same
    /// number of views.
    pub fn same(&self, other: &ViewCore) -> (r: bool)
        ensures
            r == ((match (self.focused, other.focused) {
                (Some(a), Some(b)) => a@ == b@,
                (None, None) => true,
                _ => false,
            }) && self.views@.len() == other.views@.len()),
    {
        let focus_same = match (&self.focused, &other.focused) {
            (Some(a), Some(b)) => crate::codec::bytes_eq(a, b.as_slice()),
            (None, None) => true,
            _ => false,
        };
        focus_same && self.views.len() == other.views.len()
    }
}

/// The view registered under `id` in `s`, if any.
pub open spec fn spec_view_lookup(s: Seq<(Vec<u8>, ViewState)>, id: Seq<u8>) -> Option<ViewState>
    decreases s.len(),
{
    if s.len() == 0 {
        None
    } else if s[0].0@ == id {
        Some(s[0].1)
    } else {
        spec_view_lookup(s.drop_first(), id)
    }
}

/// Whether no two views share an identifier.
pub open spec fn spec_view_unique(s: Seq<(Vec<u8>, ViewState)>) -> bool {
    forall|i: int, j: int| 0 <= i < j < s.len() ==> s[i].0@ != s[j].0@
}

proof fn lemma_view_lookup_absent(s: Seq<(Vec<u8>, ViewState)>, id: Seq<u8>)
    requires
        forall|j: int| 0 <= j < s.len() ==> s[j].0@ != id,
    ensures
        spec_view_lookup(s, id) is None,
    decreases s.len(),
{
    if s.len() > 0 {
        assert(forall|j: int| 0 <= j < s.drop_first().len() ==> s.drop_first()[j] == s[j + 1]);
        lemma_view_lookup_absent(s.drop_first(), id);
    }
}

proof fn lemma_view_lookup_snoc(s: Seq<(Vec<u8>, ViewState)>, x: (Vec<u8>, ViewState))
    requires
        forall|j: int| 0 <= j < s.len() ==> s[j].0@ != x.0@,
    ensures
        spec_view_lookup(s.push(x), x.0@) == Some(x.1),
        forall|id2: Seq<u8>|
            id2 != x.0@ ==> spec_view_lookup(s.push(x), id2) == spec_view_lookup(s, id2),
    decreases s.len(),
{
    if s.len() == 0 {
        assert(s.push(x)[0] == x);
        assert(s.push(x).drop_first() =~= Seq::<(Vec<u8>, ViewState)>::empty());
        assert forall|id2: Seq<u8>|
            id2 != x.0@ implies spec_view_lookup(s.push(x), id2) == spec_view_lookup(s, id2) by {
            assert(spec_view_lookup(s.push(x), id2) == spec_view_lookup(
                s.push(x).drop_first(),
                id2,
            ));
        }
    } else {
        assert(s.push(x)[0] == s[0]);
        assert(s.push(x).drop_first() =~= s.drop_first().push(x));
        assert(forall|j: int| 0 <= j < s.drop_first().len() ==> s.drop_first()[j] == s[j + 1]);
        lemma_view_lookup_snoc(s.drop_first(), x);
        assert forall|id2: Seq<u8>|
            id2 != x.0@ implies spec_view_lookup(s.push(x), id2) == spec_view_lookup(s, id2) by {
            assert(spec_view_lookup(s.drop_first().push(x), id2) == spec_view_lookup(
                s.drop_first(),
                id2,
            ));
        }
    }
}

proof fn lemma_view_lookup_at(s: Seq<(Vec<u8>, ViewState)>, id: Seq<u8>, i: int)
    requires
        0 <= i < s.len(),
        s[i].0@ == id,
        forall|j: int| 0 <= j < i ==> s[j].0@ != id,
    ensures
        spec_view_lookup(s, id) == Some(s[i].1),
    decreases i,
{
    if i > 0 {
        assert(forall|j: int| 0 <= j < s.drop_first().len() ==> s.drop_first()[j] == s[j + 1]);
        lemma_view_lookup_at(s.drop_first(), id, i - 1);
    }
}

impl ViewCore {
    /// One record per view identifier.
    pub open spec fn wf(&self) -> bool {
        spec_view_unique(self.views@)
    }

    /// Records the view the engine just opened under the identifier it
    /// assigned, and gives it focus. A record already under the
    /// identifier is replaced; every other view is kept.
    pub fn open_view(&mut self, view_id: Vec<u8>, vs: ViewState)
        requires
            old(self).wf(),
        ensures
            final(self).wf(),
            final(self).focused matches Some(f) && f@ == view_id@,
            spec_view_lookup(final(self).views@, view_id@) == Some(vs),
            forall|id2: Seq<u8>|
                id2 != view_id@ ==> spec_view_lookup(final(self).views@, id2) == spec_view_lookup(
                    old(self).views@,
                    id2,
                ),
    {
        self.focused = Some(vstd::slice::slice_to_vec(view_id.as_slice()));
        let n = self.views.len();
        let mut i: usize = 0;
        while i < n
            invariant
                i <= n,
                self.views == old(self).views,
                old(self).wf(),
                (self.focused matches Some(f) && f@ == view_id@),
                n == self.views@.len(),
                forall|j: int| 0 <= j < i ==> self.views@[j].0@ != view_id@,
            decreases n - i,
        {
            if crate::codec::bytes_eq(&self.views[i].0, view_id.as_slice()) {
                proof {
                    lemma_view_lookup_at(self.views@, view_id@, i as int);
                }
                let ghost oldv = self.views@;
                let _ = self.views.remove(i);
                proof {
                    assert(self.views@ =~= oldv.subrange(0, i as int) + oldv.subrange(
                        i as int + 1,
                        oldv.len() as int,
                    ));
                    assert(forall|j: int|
                        0 <= j < self.views@.len() ==> self.views@[j] == (if j < i {
                            oldv[j]
                        } else {
                            oldv[j + 1]
                        }));
                    assert(forall|j: int| 0 <= j < self.views@.len() ==> self.views@[j].0@
                        != view_id@);
                    lemma_view_lookup_snoc(self.views@, (view_id, vs));
                    assert forall|id2: Seq<u8>|
                        id2 != view_id@ implies spec_view_lookup(
                        self.views@,
                        id2,
                    ) == spec_view_lookup(oldv, id2) by {
                        lemma_view_remove_keeps(oldv, id2, i as int);
                    }
                }
                self.views.push((view_id, vs));
                return ;
            }
            i = i + 1;
        }
        proof {
            lemma_view_lookup_snoc(self.views@, (view_id, vs));
        }
        self.views.push((view_id, vs));
    }
}

/// Removing one entry leaves every other identifier's lookup alone.
proof fn lemma_view_remove_keeps(s: Seq<(Vec<u8>, ViewState)>, id: Seq<u8>, i: int)
    requires
        0 <= i < s.len(),
        id != s[i].0@,
    ensures
        spec_view_lookup(s.remove(i), id) == spec_view_lookup(s, id),
    decreases i,
{
    if i == 0 {
        assert(s.remove(0) =~= s.drop_first());
    } else {
        assert(forall|j: int| 0 <= j < s.drop_first().len() ==> s.drop_first()[j] == s[j + 1]);
        lemma_view_remove_keeps(s.drop_first(), id, i - 1);
        assert(s.drop_first().remove(i - 1) =~= s.remove(i).drop_first());
        assert(s.remove(i)[0] == s[0]);
        assert(s.remove(i).len() > 0);
    }
}

impl Default for ViewCore {
    /// No views, nothing focused.
    fn default() -> (r: ViewCore)
        ensures
            r.focused is None,
            r.views@ == Seq::<(Vec<u8>, ViewState)>::empty(),
    {
        let views: Vec<(Vec<u8>, ViewState)> = Vec::new();
        proof {
            assert(views@ =~= Seq::<(Vec<u8>, ViewState)>::empty());
        }
        ViewCore { focused: None, views }
    }
}

/// The `set_language` method name.
pub open spec fn spec_m_set_language() -> Seq<u8> {
    seq![0x73, 0x65, 0x74, 0x5f, 0x6c, 0x61, 0x6e, 0x67, 0x75, 0x61, 0x67, 0x65]
}

/// The `set_theme` method name.
pub open spec fn spec_m_set_theme() -> Seq<u8> {
    seq![0x73, 0x65, 0x74, 0x5f, 0x74, 0x68, 0x65, 0x6d, 0x65]
}

/// The `view_id` parameter key.
pub open spec fn spec_n_view_id() -> Seq<u8> {
    seq![0x76, 0x69, 0x65, 0x77, 0x5f, 0x69, 0x64]
}

/// The `language_id` parameter key.
pub open spec fn spec_n_language_id() -> Seq<u8> {
    seq![0x6c, 0x61, 0x6e, 0x67, 0x75, 0x61, 0x67, 0x65, 0x5f, 0x69, 0x64]
}

/// The `theme_name` parameter key.
pub open spec fn spec_n_theme_name() -> Seq<u8> {
    seq![0x74, 0x68, 0x65, 0x6d, 0x65, 0x5f, 0x6e, 0x61, 0x6d, 0x65]
}

/// The language the editor asks for when the engine lists languages.
pub open spec fn spec_default_language() -> Seq<u8> {
    seq![0x4a, 0x61, 0x76, 0x61, 0x53, 0x63, 0x72, 0x69, 0x70, 0x74]
}

/// The view the language is set on when none has focus yet.
pub open spec fn spec_default_view() -> Seq<u8> {
    seq![0x76, 0x69, 0x65, 0x77, 0x2d, 0x69, 0x64, 0x2d, 0x31]
}

/// The `selection_foreground` theme key.
pub open spec fn spec_n_selection_foreground() -> Seq<u8> {
    seq![
        0x73, 0x65, 0x6c, 0x65, 0x63, 0x74, 0x69, 0x6f, 0x6e, 0x5f, 0x66, 0x6f, 0x72, 0x65, 0x67,
        0x72, 0x6f, 0x75, 0x6e, 0x64,
    ]
}

/// The `selection` theme key.
pub open spec fn spec_n_selection() -> Seq<u8> {
    seq![0x73, 0x65, 0x6c, 0x65, 0x63, 0x74, 0x69, 0x6f, 0x6e]
}

/// The `r` channel key.
pub open spec fn spec_n_chan_r() -> Seq<u8> {
    seq![0x72]
}

/// The `g` channel key.
pub open spec fn spec_n_chan_g() -> Seq<u8> {
    seq![0x67]
}

/// The `b` channel key.
pub open spec fn spec_n_chan_b() -> Seq<u8> {
    seq![0x62]
}

/// The `a` channel key.
pub open spec fn spec_n_chan_a() -> Seq<u8> {
    seq![0x61]
}

/// The color a theme-settings member stands for: four channel bytes.
pub open spec fn spec_color_of(j: JsonV) -> Option<crate::theme_color::RgbaColor> {
    match (crate::router::spec_u64_field(j, spec_n_chan_r()), crate::router::spec_u64_field(
        j,
        spec_n_chan_g(),
    ), crate::router::spec_u64_field(j, spec_n_chan_b()), crate::router::spec_u64_field(
        j,
        spec_n_chan_a(),
    )) {
        (Some(r), Some(g), Some(b), Some(a)) => if r < 256 && g < 256 && b < 256 && a < 256 {
            Some(
                crate::theme_color::RgbaColor {
                    r: r as u8,
                    g: g as u8,
                    b: b as u8,
                    a: a as u8,
                },
            )
        } else {
            None
        },
        _ => None,
    }
}

/// The packed word of the color under `key` in the theme settings, when
/// the settings carry one the table can use.
pub open spec fn spec_sel_color(theme: JsonV, key: Seq<u8>) -> Option<u32> {
    match theme {
        JsonV::Obj(ms) => match crate::codec::spec_get(ms, key) {
            Some(c) => match spec_color_of(c) {
                Some(col) => Some(crate::theme_color::spec_u32_from_color(col)),
                None => None,
            },
            None => None,
        },
        _ => None,
    }
}

/// Reads a theme-settings color member. A missing or unusable member is
/// simply no color; the theme is not rejected for it.
fn color_of_json(j: &Json) -> (r: Option<crate::theme_color::RgbaColor>)
    ensures
        r == spec_color_of(jv(*j)),
{
    let ms = match j {
        Json::Obj(ms) => ms,
        _ => {
            return None;
        },
    };
    let rk: &str = "r";
    let gk: &str = "g";
    let bk: &str = "b";
    let ak: &str = "a";
    proof {
        reveal_strlit("r");
        reveal_strlit("g");
        reveal_strlit("b");
        reveal_strlit("a");
        assert(rk.is_ascii() && gk.is_ascii() && bk.is_ascii() && ak.is_ascii());
        assert(rk.spec_bytes() =~= spec_n_chan_r());
        assert(gk.spec_bytes() =~= spec_n_chan_g());
        assert(bk.spec_bytes() =~= spec_n_chan_b());
        assert(ak.spec_bytes() =~= spec_n_chan_a());
    }
    let r = chan_of(ms, rk.as_bytes());
    let g = chan_of(ms, gk.as_bytes());
    let b = chan_of(ms, bk.as_bytes());
    let a = chan_of(ms, ak.as_bytes());
    match (r, g, b, a) {
        (Some(r), Some(g), Some(b), Some(a)) => if r < 256 && g < 256 && b < 256 && a < 256 {
            Some(
                crate::theme_color::RgbaColor {
                    r: r as u8,
                    g: g as u8,
                    b: b as u8,
                    a: a as u8,
                },
            )
        } else {
            None
        },
        _ => None,
    }
}

/// Reads one numeric channel member.
fn chan_of(ms: &Vec<Member>, key: &[u8]) -> (r: Option<u64>)
    ensures
        r == crate::router::spec_u64_field(JsonV::Obj(crate::json::jv_members(ms@)), key@),
{
    match crate::codec::obj_get_ref(ms, key) {
        Some(Json::Num(lex)) => crate::json::parse_u64(lex.as_slice()),
        Some(_) => None,
        None => None,
    }
}

/// Sets the style registered under `id`, keeping every other style.
fn styles_set(styles: &mut Vec<(u64, Style)>, id: u64, st: Style)
    requires
        crate::tracker::spec_unique_ids(old(styles)@),
    ensures
        crate::tracker::spec_unique_ids(final(styles)@),
        crate::tracker::spec_lookup(final(styles)@, id) == Some(st),
        forall|id2: u64|
            id2 != id ==> crate::tracker::spec_lookup(final(styles)@, id2)
                == crate::tracker::spec_lookup(old(styles)@, id2),
{
    proof {
        crate::tracker::lemma_remove_id_props(styles@, id);
    }
    let n = styles.len();
    let mut i: usize = 0;
    while i < n
        invariant
            i <= n,
            *styles == *old(styles),
            crate::tracker::spec_unique_ids(old(styles)@),
            n == styles@.len(),
            forall|j: int| 0 <= j < i ==> styles@[j].0 != id,
        decreases n - i,
    {
        if styles[i].0 == id {
            proof {
                crate::tracker::lemma_lookup_at(styles@, id, i as int);
                crate::tracker::lemma_remove_id_at(styles@, id, i as int);
                crate::tracker::lemma_remove_id_props(styles@, id);
            }
            let ghost oldp = styles@;
            let _ = styles.remove(i);
            proof {
                assert(styles@ =~= oldp.subrange(0, i as int) + oldp.subrange(
                    i as int + 1,
                    oldp.len() as int,
                ));
                assert(forall|j: int|
                    0 <= j < styles@.len() ==> styles@[j] == (if j < i {
                        oldp[j]
                    } else {
                        oldp[j + 1]
                    }));
                crate::tracker::lemma_lookup_snoc(styles@, (id, st));
                assert(forall|j: int| 0 <= j < styles@.len() ==> styles@[j].0 != id);
                crate::tracker::lemma_lookup_absent(styles@, id);
            }
            styles.push((id, st));
            return ;
        }
        i = i + 1;
    }
    proof {
        crate::tracker::lemma_lookup_absent(styles@, id);
        crate::tracker::lemma_lookup_snoc(styles@, (id, st));
    }
    styles.push((id, st));
}

/// What the event handler asks the surrounding layer to do.
#[derive(Debug, PartialEq, Eq)]
pub enum Effect {
    /// Show this theme list to the user.
    ListThemes(Vec<Vec<u8>>),
    /// Write this notification line to the engine.
    Send(Vec<u8>),
}

/// The application's whole editor state, as the window shows it.
pub struct AppState {
    pub title: String,
    pub workspace: Workspace,
    pub theme: Json,
    pub theme_name: Vec<u8>,
    pub styles: Vec<(u64, Style)>,
    pub themes: Vec<Vec<u8>>,
    pub params: Params,
    pub entry: FileEntry,
    pub view: ViewCore,
    pub view_id: usize,
    pub current_file: Option<String>,
    pub current_dir: Option<String>,
    pub last_dir: Option<String>,
}

/// Everything of the state but the theme fields and style table is kept.
pub open spec fn spec_same_but_theme(pre: AppState, post: AppState) -> bool {
    &&& post.title == pre.title
    &&& post.workspace == pre.workspace
    &&& post.themes == pre.themes
    &&& post.params == pre.params
    &&& post.entry == pre.entry
    &&& post.view == pre.view
    &&& post.view_id == pre.view_id
    &&& post.current_file == pre.current_file
    &&& post.current_dir == pre.current_dir
    &&& post.last_dir == pre.last_dir
}

/// The selection style the theme prescribes: style zero, colored from the
/// theme's selection members.
pub open spec fn spec_selection_style(theme: JsonV) -> Style {
    Style {
        id: 0,
        fg_color: spec_sel_color(theme, spec_n_selection_foreground()),
        bg_color: spec_sel_color(theme, spec_n_selection()),
        weight: None,
        italic: None,
        underline: None,
    }
}

/// The `set_language` notification the handler answers a language listing
/// with: the focused view, or the engine's first view before any focus.
pub open spec fn spec_set_language_line(focused: Option<Vec<u8>>) -> Seq<u8> {
    crate::codec::spec_enc_frame(
        FrameV::Notification {
            method: spec_m_set_language(),
            params: JsonV::Obj(
                seq![
                    MemberV {
                        key: spec_n_view_id(),
                        value: JsonV::Str(
                            match focused {
                                Some(v) => v@,
                                None => spec_default_view(),
                            },
                        ),
                    },
                    MemberV {
                        key: spec_n_language_id(),
                        value: JsonV::Str(spec_default_language()),
                    },
                ],
            ),
        },
    )
}

/// What handling one routed operation does to the state, and what it asks
/// of the surrounding layer.
pub open spec fn spec_handle_event(
    pre: AppState,
    op: RpcOperations,
    post: AppState,
    effects: Seq<Effect>,
) -> bool {
    match op {
        RpcOperations::AvailableThemes(t) => post == pre && effects.len() == 1 && (
        effects[0] matches Effect::ListThemes(ts) && crate::router::views_of(ts@)
            == crate::router::views_of(t.themes@)),
        RpcOperations::AvailableLanguages(_) => post == pre && effects.len() == 1 && (
        effects[0] matches Effect::Send(line) && line@ == spec_set_language_line(
            pre.view.focused,
        )),
        RpcOperations::DefStyle(s) => effects.len() == 0 && spec_same_but_theme(pre, post)
            && post.theme == pre.theme && post.theme_name == pre.theme_name
            && crate::tracker::spec_unique_ids(post.styles@) && crate::tracker::spec_lookup(
            post.styles@,
            s.id,
        ) == Some(s) && (forall|id2: u64|
            id2 != s.id ==> crate::tracker::spec_lookup(post.styles@, id2)
                == crate::tracker::spec_lookup(pre.styles@, id2)),
        RpcOperations::ThemeChanged(tc) => effects.len() == 0 && spec_same_but_theme(pre, post)
            && jv(post.theme) == jv(tc.theme) && post.theme_name@ == tc.name@
            && crate::tracker::spec_unique_ids(post.styles@) && crate::tracker::spec_lookup(
            post.styles@,
            0,
        ) == Some(spec_selection_style(jv(tc.theme))) && (forall|id2: u64|
            id2 != 0 ==> crate::tracker::spec_lookup(post.styles@, id2)
                == crate::tracker::spec_lookup(pre.styles@, id2)),
        _ => post == pre && effects.len() == 0,
    }
}

impl AppState {
    /// Whether the style table holds one entry per style identifier.
    pub open spec fn wf(&self) -> bool {
        crate::tracker::spec_unique_ids(self.styles@)
    }

    /// The text being edited.
    pub fn text(&mut self) -> (r: String)
        ensures
            *final(self) == *old(self),
            r@ == final(self).workspace.input_text@,
    {
        self.workspace.input_text.clone()
    }

    /// Remembers the chosen theme and yields the `set_theme` notification
    /// line that asks the engine for it.
    pub fn set_theme(&mut self, theme: &str) -> (line: Vec<u8>)
        ensures
            final(self).theme_name@ == theme.spec_bytes(),
            spec_same_but_theme(*old(self), *final(self)),
            final(self).theme == old(self).theme,
            final(self).styles == old(self).styles,
            line@ == crate::codec::spec_enc_frame(
                FrameV::Notification {
                    method: spec_m_set_theme(),
                    params: JsonV::Obj(
                        seq![
                            MemberV {
                                key: spec_n_theme_name(),
                                value: JsonV::Str(theme.spec_bytes()),
                            },
                        ],
                    ),
                },
            ),
    {
        let m: &str = "set_theme";
        let k: &str = "theme_name";
        proof {
            reveal_strlit("set_theme");
            reveal_strlit("theme_name");
            assert(m.is_ascii() && k.is_ascii());
            assert(m.spec_bytes() =~= spec_m_set_theme());
            assert(k.spec_bytes() =~= spec_n_theme_name());
        }
        self.theme_name = vstd::slice::slice_to_vec(theme.as_bytes());
        let mut ms: Vec<Member> = Vec::new();
        ms.push(
            Member {
                key: vstd::slice::slice_to_vec(k.as_bytes()),
                value: Json::Str(vstd::slice::slice_to_vec(theme.as_bytes())),
            },
        );
        let ghost msg = ms@;
        let params = Json::Obj(ms);
        proof {
            crate::json::lemma_jv_members_props(msg);
            assert(crate::json::jv_members(msg) =~= seq![
                MemberV { key: spec_n_theme_name(), value: JsonV::Str(theme.spec_bytes()) },
            ]);
        }
        let mut line: Vec<u8> = Vec::new();
        crate::codec::encode_frame(
            crate::codec::Frame::Notification {
                method: vstd::slice::slice_to_vec(m.as_bytes()),
                params,
            },
            &mut line,
        );
        proof {
            assert(line@ =~= crate::codec::spec_enc_frame(
                FrameV::Notification {
                    method: spec_m_set_theme(),
                    params: JsonV::Obj(
                        seq![
                            MemberV {
                                key: spec_n_theme_name(),
                                value: JsonV::Str(theme.spec_bytes()),
                            },
                        ],
                    ),
                },
            ));
        }
        line
    }

    /// Takes over the theme names the engine offered.
    pub fn update_themes_list(&mut self, themes: &AvailableThemes)
        ensures
            crate::router::views_of(final(self).themes@) == crate::router::views_of(
                themes.themes@,
            ),
            final(self).theme == old(self).theme,
            final(self).theme_name == old(self).theme_name,
            final(self).styles == old(self).styles,
            spec_same_but_themes_list(*old(self), *final(self)),
    {
        self.themes = copy_names(&themes.themes);
    }

    /// Takes an opened file into the workspace: the caller has read the
    /// file's text and asked the engine for a view; the state remembers
    /// both the text and the path.
    pub fn open_file(&mut self, path: String, content: String)
        ensures
            final(self).workspace.input_text@ == content@,
            final(self).workspace.current_file@ == path@,
            final(self).current_file matches Some(p) && p@ == path@,
            final(self).workspace.project == old(self).workspace.project,
            final(self).workspace.origin_text == old(self).workspace.origin_text,
            final(self).workspace.dir == old(self).workspace.dir,
            final(self).entry == old(self).entry,
            final(self).current_dir == old(self).current_dir,
            final(self).theme == old(self).theme,
            final(self).styles == old(self).styles,
    {
        self.workspace.input_text = content;
        self.workspace.current_file = path.clone();
        self.current_file = Some(path);
    }

    /// Takes an opened project directory: the project shows under the
    /// directory's display name, with the entries the caller's walk of it
    /// produced, and the previous directory is remembered.
    pub fn set_dir(&mut self, path: String, entries: Vec<FileEntry>)
        ensures
            final(self).workspace.project@ == crate::file_tree::spec_file_name(path@),
            final(self).workspace.dir@ == path@,
            final(self).entry.name@ == crate::file_tree::spec_file_name(path@),
            final(self).entry.children@ == entries@,
            final(self).last_dir == old(self).current_dir,
            final(self).current_dir matches Some(p) && p@ == path@,
            final(self).workspace.input_text == old(self).workspace.input_text,
            final(self).current_file == old(self).current_file,
            final(self).theme == old(self).theme,
            final(self).styles == old(self).styles,
    {
        let name = crate::file_tree::file_name_of(path.as_str());
        self.workspace.project = name.clone();
        self.workspace.dir = path.clone();
        self.entry = FileEntry::from_dir(name, entries);
        self.last_dir = self.current_dir.clone();
        self.current_dir = Some(path);
    }

    /// Replaces the project tree with a fresh walk's entries.
    pub fn reload_dir(&mut self, entries: Vec<FileEntry>)
        ensures
            final(self).entry.name@ == old(self).workspace.project@,
            final(self).entry.children@ == entries@,
            final(self).workspace == old(self).workspace,
            final(self).current_dir == old(self).current_dir,
            final(self).theme == old(self).theme,
            final(self).styles == old(self).styles,
    {
        self.entry = FileEntry::from_dir(self.workspace.project.clone(), entries);
    }

    /// Applies one routed operation: themes are offered up, a language
    /// listing is answered with `set_language` for the focused view, a
    /// style definition and a theme change update the style table — the
    /// theme change also setting the selection style the theme carries —
    /// and the rest leave the state alone. Buffer updates belong to the
    /// text widget's line cache, and width measurements to the windowing
    /// layer, so both pass through without effect here.
    pub fn handle_event(&mut self, op: RpcOperations) -> (effects: Vec<Effect>)
        requires
            old(self).wf(),
        ensures
            final(self).wf(),
            spec_handle_event(*old(self), op, *final(self), effects@),
    {
        match op {
            RpcOperations::AvailableThemes(t) => {
                let mut effects: Vec<Effect> = Vec::new();
                effects.push(Effect::ListThemes(copy_names(&t.themes)));
                effects
            },
            RpcOperations::AvailableLanguages(_) => {
                let m: &str = "set_language";
                let k1: &str = "view_id";
                let k2: &str = "language_id";
                let lang: &str = "JavaScript";
                let defview: &str = "view-id-1";
                proof {
                    reveal_strlit("set_language");
                    reveal_strlit("view_id");
                    reveal_strlit("language_id");
                    reveal_strlit("JavaScript");
                    reveal_strlit("view-id-1");
                    assert(m.is_ascii() && k1.is_ascii() && k2.is_ascii() && lang.is_ascii()
                        && defview.is_ascii());
                    assert(m.spec_bytes() =~= spec_m_set_language());
                    assert(k1.spec_bytes() =~= spec_n_view_id());
                    assert(k2.spec_bytes() =~= spec_n_language_id());
                    assert(lang.spec_bytes() =~= spec_default_language());
                    assert(defview.spec_bytes() =~= spec_default_view());
                }
                let vid: Vec<u8> = match &self.view.focused {
                    Some(v) => vstd::slice::slice_to_vec(v.as_slice()),
                    None => vstd::slice::slice_to_vec(defview.as_bytes()),
                };
                let mut ms: Vec<Member> = Vec::new();
                ms.push(
                    Member { key: vstd::slice::slice_to_vec(k1.as_bytes()), value: Json::Str(vid) },
                );
                ms.push(
                    Member {
                        key: vstd::slice::slice_to_vec(k2.as_bytes()),
                        value: Json::Str(vstd::slice::slice_to_vec(lang.as_bytes())),
                    },
                );
                let ghost msg = ms@;
                let params = Json::Obj(ms);
                proof {
                    crate::json::lemma_jv_members_props(msg);
                    assert(crate::json::jv_members(msg) =~= seq![
                        MemberV {
                            key: spec_n_view_id(),
                            value: JsonV::Str(
                                match self.view.focused {
                                    Some(v) => v@,
                                    None => spec_default_view(),
                                },
                            ),
                        },
                        MemberV {
                            key: spec_n_language_id(),
                            value: JsonV::Str(spec_default_language()),
                        },
                    ]);
                }
                let mut line: Vec<u8> = Vec::new();
                crate::codec::encode_frame(
                    crate::codec::Frame::Notification {
                        method: vstd::slice::slice_to_vec(m.as_bytes()),
                        params,
                    },
                    &mut line,
                );
                proof {
                    assert(line@ =~= spec_set_language_line(self.view.focused));
                }
                let mut effects: Vec<Effect> = Vec::new();
                effects.push(Effect::Send(line));
                effects
            },
            RpcOperations::DefStyle(s) => {
                styles_set(&mut self.styles, s.id, s);
                Vec::new()
            },
            RpcOperations::ThemeChanged(tc) => {
                let sf: &str = "selection_foreground";
                let sel: &str = "selection";
                proof {
                    reveal_strlit("selection_foreground");
                    reveal_strlit("selection");
                    assert(sf.is_ascii() && sel.is_ascii());
                    assert(sf.spec_bytes() =~= spec_n_selection_foreground());
                    assert(sel.spec_bytes() =~= spec_n_selection());
                }
                let fg = theme_color_field(&tc.theme, sf.as_bytes());
                let bg = theme_color_field(&tc.theme, sel.as_bytes());
                let selection = Style {
                    id: 0,
                    fg_color: fg,
                    bg_color: bg,
                    weight: None,
                    italic: None,
                    underline: None,
                };
                proof {
                    assert(selection == spec_selection_style(jv(tc.theme)));
                }
                self.theme = tc.theme;
                self.theme_name = tc.name;
                styles_set(&mut self.styles, 0, selection);
                Vec::new()
            },
            _ => Vec::new(),
        }
    }
}

/// Everything of the state but the offered theme list is kept.
pub open spec fn spec_same_but_themes_list(pre: AppState, post: AppState) -> bool {
    &&& post.title == pre.title
    &&& post.workspace == pre.workspace
    &&& post.params == pre.params
    &&& post.entry == pre.entry
    &&& post.view == pre.view
    &&& post.view_id == pre.view_id
    &&& post.current_file == pre.current_file
    &&& post.current_dir == pre.current_dir
    &&& post.last_dir == pre.last_dir
}

/// A copy of a name list.
fn copy_names(names: &Vec<Vec<u8>>) -> (r: Vec<Vec<u8>>)
    ensures
        crate::router::views_of(r@) == crate::router::views_of(names@),
{
    let n = names.len();
    let mut out: Vec<Vec<u8>> = Vec::new();
    let mut i: usize = 0;
    while i < n
        invariant
            i <= n,
            n == names@.len(),
            out@.len() == i,
            forall|j: int| 0 <= j < i ==> out@[j]@ == names@[j]@,
        decreases n - i,
    {
        out.push(vstd::slice::slice_to_vec(names[i].as_slice()));
        i = i + 1;
    }
    proof {
        lemma_views_of_pointwise(out@, names@);
    }
    out
}

/// Name lists that agree element by element read the same.
proof fn lemma_views_of_pointwise(a: Seq<Vec<u8>>, b: Seq<Vec<u8>>)
    requires
        a.len() == b.len(),
        forall|j: int| 0 <= j < a.len() ==> a[j]@ == b[j]@,
    ensures
        crate::router::views_of(a) == crate::router::views_of(b),
    decreases a.len(),
{
    if a.len() > 0 {
        assert(forall|j: int| 0 <= j < a.drop_first().len() ==> a.drop_first()[j] == a[j + 1]);
        assert(forall|j: int| 0 <= j < b.drop_first().len() ==> b.drop_first()[j] == b[j + 1]);
        lemma_views_of_pointwise(a.drop_first(), b.drop_first());
        assert(crate::router::views_of(a) =~= crate::router::views_of(b));
    }
}

/// The packed color under `key` in a theme-settings object, if a usable
/// one is there.
fn theme_color_field(theme: &Json, key: &[u8]) -> (r: Option<u32>)
    ensures
        r == spec_sel_color(jv(*theme), key@),
{
    let ms = match theme {
        Json::Obj(ms) => ms,
        _ => {
            return None;
        },
    };
    match crate::codec::obj_get_ref(ms, key) {
        Some(member) => match color_of_json(member) {
            Some(col) => Some(crate::theme_color::u32_from_color(col)),
            None => None,
        },
        None => None,
    }
}

} // verus!
