//! The notification router: a method name and its parameters to one typed
//! domain operation.
//!
//! The table of known methods is closed; an unknown name is a recoverable
//! `UnknownMethod` error, never a crash, so a newer peer does not bring the
//! client down. A known method whose parameters do not fit the expected
//! shape is likewise a recoverable `InvalidPayload`.

use crate::codec::{bytes_eq, first_or, lemma_get_snoc, opt_jv, spec_get, spec_id_of};
use crate::json::{
    jv, jv_members, lemma_jv_members_props, parse_u64, Json, JsonV, Member, MemberV,
};
use vstd::prelude::*;
use vstd::string::StringSliceAdditionalSpecFns;

verus! {

/// The `update` method name.
pub open spec fn spec_m_update() -> Seq<u8> {
    seq![0x75, 0x70, 0x64, 0x61, 0x74, 0x65]
}

/// The `scroll_to` method name.
pub open spec fn spec_m_scroll_to() -> Seq<u8> {
    seq![0x73, 0x63, 0x72, 0x6f, 0x6c, 0x6c, 0x5f, 0x74, 0x6f]
}

/// The `def_style` method name.
pub open spec fn spec_m_def_style() -> Seq<u8> {
    seq![0x64, 0x65, 0x66, 0x5f, 0x73, 0x74, 0x79, 0x6c, 0x65]
}

/// The `available_plugins` method name.
pub open spec fn spec_m_available_plugins() -> Seq<u8> {
    seq![0x61, 0x76, 0x61, 0x69, 0x6c, 0x61, 0x62, 0x6c, 0x65, 0x5f, 0x70, 0x6c, 0x75, 0x67, 0x69, 0x6e, 0x73]
}

/// The `plugin_started` method name.
pub open spec fn spec_m_plugin_started() -> Seq<u8> {
    seq![0x70, 0x6c, 0x75, 0x67, 0x69, 0x6e, 0x5f, 0x73, 0x74, 0x61, 0x72, 0x74, 0x65, 0x64]
}

/// The `plugin_stopped` method name.
pub open spec fn spec_m_plugin_stopped() -> Seq<u8> {
    seq![0x70, 0x6c, 0x75, 0x67, 0x69, 0x6e, 0x5f, 0x73, 0x74, 0x6f, 0x70, 0x70, 0x65, 0x64]
}

/// The `update_cmds` method name.
pub open spec fn spec_m_update_cmds() -> Seq<u8> {
    seq![0x75, 0x70, 0x64, 0x61, 0x74, 0x65, 0x5f, 0x63, 0x6d, 0x64, 0x73]
}

/// The `config_changed` method name.
pub open spec fn spec_m_config_changed() -> Seq<u8> {
    seq![0x63, 0x6f, 0x6e, 0x66, 0x69, 0x67, 0x5f, 0x63, 0x68, 0x61, 0x6e, 0x67, 0x65, 0x64]
}

/// The `theme_changed` method name.
pub open spec fn spec_m_theme_changed() -> Seq<u8> {
    seq![0x74, 0x68, 0x65, 0x6d, 0x65, 0x5f, 0x63, 0x68, 0x61, 0x6e, 0x67, 0x65, 0x64]
}

/// The `alert` method name.
pub open spec fn spec_m_alert() -> Seq<u8> {
    seq![0x61, 0x6c, 0x65, 0x72, 0x74]
}

/// The `available_themes` method name.
pub open spec fn spec_m_available_themes() -> Seq<u8> {
    seq![0x61, 0x76, 0x61, 0x69, 0x6c, 0x61, 0x62, 0x6c, 0x65, 0x5f, 0x74, 0x68, 0x65, 0x6d, 0x65, 0x73]
}

/// The `find_status` method name.
pub open spec fn spec_m_find_status() -> Seq<u8> {
    seq![0x66, 0x69, 0x6e, 0x64, 0x5f, 0x73, 0x74, 0x61, 0x74, 0x75, 0x73]
}

/// The `replace_status` method name.
pub open spec fn spec_m_replace_status() -> Seq<u8> {
    seq![0x72, 0x65, 0x70, 0x6c, 0x61, 0x63, 0x65, 0x5f, 0x73, 0x74, 0x61, 0x74, 0x75, 0x73]
}

/// The `available_languages` method name.
pub open spec fn spec_m_available_languages() -> Seq<u8> {
    seq![0x61, 0x76, 0x61, 0x69, 0x6c, 0x61, 0x62, 0x6c, 0x65, 0x5f, 0x6c, 0x61, 0x6e, 0x67, 0x75, 0x61, 0x67, 0x65, 0x73]
}

/// The `language_changed` method name.
pub open spec fn spec_m_language_changed() -> Seq<u8> {
    seq![0x6c, 0x61, 0x6e, 0x67, 0x75, 0x61, 0x67, 0x65, 0x5f, 0x63, 0x68, 0x61, 0x6e, 0x67, 0x65, 0x64]
}

/// The `view_id` parameter key.
pub open spec fn spec_n_view_id() -> Seq<u8> {
    seq![0x76, 0x69, 0x65, 0x77, 0x5f, 0x69, 0x64]
}

/// The `update` parameter key.
pub open spec fn spec_n_update() -> Seq<u8> {
    seq![0x75, 0x70, 0x64, 0x61, 0x74, 0x65]
}

/// The `line` parameter key.
pub open spec fn spec_n_line() -> Seq<u8> {
    seq![0x6c, 0x69, 0x6e, 0x65]
}

/// The `col` parameter key.
pub open spec fn spec_n_col() -> Seq<u8> {
    seq![0x63, 0x6f, 0x6c]
}

/// The `id` parameter key.
pub open spec fn spec_n_id() -> Seq<u8> {
    seq![0x69, 0x64]
}

/// The `fg_color` parameter key.
pub open spec fn spec_n_fg_color() -> Seq<u8> {
    seq![0x66, 0x67, 0x5f, 0x63, 0x6f, 0x6c, 0x6f, 0x72]
}

/// The `bg_color` parameter key.
pub open spec fn spec_n_bg_color() -> Seq<u8> {
    seq![0x62, 0x67, 0x5f, 0x63, 0x6f, 0x6c, 0x6f, 0x72]
}

/// The `weight` parameter key.
pub open spec fn spec_n_weight() -> Seq<u8> {
    seq![0x77, 0x65, 0x69, 0x67, 0x68, 0x74]
}

/// The `italic` parameter key.
pub open spec fn spec_n_italic() -> Seq<u8> {
    seq![0x69, 0x74, 0x61, 0x6c, 0x69, 0x63]
}

/// The `underline` parameter key.
pub open spec fn spec_n_underline() -> Seq<u8> {
    seq![0x75, 0x6e, 0x64, 0x65, 0x72, 0x6c, 0x69, 0x6e, 0x65]
}

/// The `plugins` parameter key.
pub open spec fn spec_n_plugins() -> Seq<u8> {
    seq![0x70, 0x6c, 0x75, 0x67, 0x69, 0x6e, 0x73]
}

/// The `plugin` parameter key.
pub open spec fn spec_n_plugin() -> Seq<u8> {
    seq![0x70, 0x6c, 0x75, 0x67, 0x69, 0x6e]
}

/// The `cmds` parameter key.
pub open spec fn spec_n_cmds() -> Seq<u8> {
    seq![0x63, 0x6d, 0x64, 0x73]
}

/// The `changes` parameter key.
pub open spec fn spec_n_changes() -> Seq<u8> {
    seq![0x63, 0x68, 0x61, 0x6e, 0x67, 0x65, 0x73]
}

/// The `theme` parameter key.
pub open spec fn spec_n_theme() -> Seq<u8> {
    seq![0x74, 0x68, 0x65, 0x6d, 0x65]
}

/// The `name` parameter key.
pub open spec fn spec_n_name() -> Seq<u8> {
    seq![0x6e, 0x61, 0x6d, 0x65]
}

/// The `msg` parameter key.
pub open spec fn spec_n_msg() -> Seq<u8> {
    seq![0x6d, 0x73, 0x67]
}

/// The `themes` parameter key.
pub open spec fn spec_n_themes() -> Seq<u8> {
    seq![0x74, 0x68, 0x65, 0x6d, 0x65, 0x73]
}

/// The `queries` parameter key.
pub open spec fn spec_n_queries() -> Seq<u8> {
    seq![0x71, 0x75, 0x65, 0x72, 0x69, 0x65, 0x73]
}

/// The `status` parameter key.
pub open spec fn spec_n_status() -> Seq<u8> {
    seq![0x73, 0x74, 0x61, 0x74, 0x75, 0x73]
}

/// The `languages` parameter key.
pub open spec fn spec_n_languages() -> Seq<u8> {
    seq![0x6c, 0x61, 0x6e, 0x67, 0x75, 0x61, 0x67, 0x65, 0x73]
}

/// The `language_id` parameter key.
pub open spec fn spec_n_language_id() -> Seq<u8> {
    seq![0x6c, 0x61, 0x6e, 0x67, 0x75, 0x61, 0x67, 0x65, 0x5f, 0x69, 0x64]
}

/// The `update` method name as bytes.
fn m_update() -> (r: Vec<u8>)
    ensures
        r@ == spec_m_update(),
{
    let pat: &str = "update";
    proof {
        reveal_strlit("update");
        assert(pat.is_ascii());
        assert(pat.spec_bytes() =~= spec_m_update());
    }
    vstd::slice::slice_to_vec(pat.as_bytes())
}

/// The `scroll_to` method name as bytes.
fn m_scroll_to() -> (r: Vec<u8>)
    ensures
        r@ == spec_m_scroll_to(),
{
    let pat: &str = "scroll_to";
    proof {
        reveal_strlit("scroll_to");
        assert(pat.is_ascii());
        assert(pat.spec_bytes() =~= spec_m_scroll_to());
    }
    vstd::slice::slice_to_vec(pat.as_bytes())
}

/// The `def_style` method name as bytes.
fn m_def_style() -> (r: Vec<u8>)
    ensures
        r@ == spec_m_def_style(),
{
    let pat: &str = "def_style";
    proof {
        reveal_strlit("def_style");
        assert(pat.is_ascii());
        assert(pat.spec_bytes() =~= spec_m_def_style());
    }
    vstd::slice::slice_to_vec(pat.as_bytes())
}

/// The `available_plugins` method name as bytes.
fn m_available_plugins() -> (r: Vec<u8>)
    ensures
        r@ == spec_m_available_plugins(),
{
    let pat: &str = "available_plugins";
    proof {
        reveal_strlit("available_plugins");
        assert(pat.is_ascii());
        assert(pat.spec_bytes() =~= spec_m_available_plugins());
    }
    vstd::slice::slice_to_vec(pat.as_bytes())
}

/// The `plugin_started` method name as bytes.
fn m_plugin_started() -> (r: Vec<u8>)
    ensures
        r@ == spec_m_plugin_started(),
{
    let pat: &str = "plugin_started";
    proof {
        reveal_strlit("plugin_started");
        assert(pat.is_ascii());
        assert(pat.spec_bytes() =~= spec_m_plugin_started());
    }
    vstd::slice::slice_to_vec(pat.as_bytes())
}

/// The `plugin_stopped` method name as bytes.
fn m_plugin_stopped() -> (r: Vec<u8>)
    ensures
        r@ == spec_m_plugin_stopped(),
{
    let pat: &str = "plugin_stopped";
    proof {
        reveal_strlit("plugin_stopped");
        assert(pat.is_ascii());
        assert(pat.spec_bytes() =~= spec_m_plugin_stopped());
    }
    vstd::slice::slice_to_vec(pat.as_bytes())
}

/// The `update_cmds` method name as bytes.
fn m_update_cmds() -> (r: Vec<u8>)
    ensures
        r@ == spec_m_update_cmds(),
{
    let pat: &str = "update_cmds";
    proof {
        reveal_strlit("update_cmds");
        assert(pat.is_ascii());
        assert(pat.spec_bytes() =~= spec_m_update_cmds());
    }
    vstd::slice::slice_to_vec(pat.as_bytes())
}

/// The `config_changed` method name as bytes.
fn m_config_changed() -> (r: Vec<u8>)
    ensures
        r@ == spec_m_config_changed(),
{
    let pat: &str = "config_changed";
    proof {
        reveal_strlit("config_changed");
        assert(pat.is_ascii());
        assert(pat.spec_bytes() =~= spec_m_config_changed());
    }
    vstd::slice::slice_to_vec(pat.as_bytes())
}

/// The `theme_changed` method name as bytes.
fn m_theme_changed() -> (r: Vec<u8>)
    ensures
        r@ == spec_m_theme_changed(),
{
    let pat: &str = "theme_changed";
    proof {
        reveal_strlit("theme_changed");
        assert(pat.is_ascii());
        assert(pat.spec_bytes() =~= spec_m_theme_changed());
    }
    vstd::slice::slice_to_vec(pat.as_bytes())
}

/// The `alert` method name as bytes.
fn m_alert() -> (r: Vec<u8>)
    ensures
        r@ == spec_m_alert(),
{
    let pat: &str = "alert";
    proof {
        reveal_strlit("alert");
        assert(pat.is_ascii());
        assert(pat.spec_bytes() =~= spec_m_alert());
    }
    vstd::slice::slice_to_vec(pat.as_bytes())
}

/// The `available_themes` method name as bytes.
fn m_available_themes() -> (r: Vec<u8>)
    ensures
        r@ == spec_m_available_themes(),
{
    let pat: &str = "available_themes";
    proof {
        reveal_strlit("available_themes");
        assert(pat.is_ascii());
        assert(pat.spec_bytes() =~= spec_m_available_themes());
    }
    vstd::slice::slice_to_vec(pat.as_bytes())
}

/// The `find_status` method name as bytes.
fn m_find_status() -> (r: Vec<u8>)
    ensures
        r@ == spec_m_find_status(),
{
    let pat: &str = "find_status";
    proof {
        reveal_strlit("find_status");
        assert(pat.is_ascii());
        assert(pat.spec_bytes() =~= spec_m_find_status());
    }
    vstd::slice::slice_to_vec(pat.as_bytes())
}

/// The `replace_status` method name as bytes.
fn m_replace_status() -> (r: Vec<u8>)
    ensures
        r@ == spec_m_replace_status(),
{
    let pat: &str = "replace_status";
    proof {
        reveal_strlit("replace_status");
        assert(pat.is_ascii());
        assert(pat.spec_bytes() =~= spec_m_replace_status());
    }
    vstd::slice::slice_to_vec(pat.as_bytes())
}

/// The `available_languages` method name as bytes.
fn m_available_languages() -> (r: Vec<u8>)
    ensures
        r@ == spec_m_available_languages(),
{
    let pat: &str = "available_languages";
    proof {
        reveal_strlit("available_languages");
        assert(pat.is_ascii());
        assert(pat.spec_bytes() =~= spec_m_available_languages());
    }
    vstd::slice::slice_to_vec(pat.as_bytes())
}

/// The `language_changed` method name as bytes.
fn m_language_changed() -> (r: Vec<u8>)
    ensures
        r@ == spec_m_language_changed(),
{
    let pat: &str = "language_changed";
    proof {
        reveal_strlit("language_changed");
        assert(pat.is_ascii());
        assert(pat.spec_bytes() =~= spec_m_language_changed());
    }
    vstd::slice::slice_to_vec(pat.as_bytes())
}

/// The `view_id` parameter key as bytes.
fn n_view_id() -> (r: Vec<u8>)
    ensures
        r@ == spec_n_view_id(),
{
    let pat: &str = "view_id";
    proof {
        reveal_strlit("view_id");
        assert(pat.is_ascii());
        assert(pat.spec_bytes() =~= spec_n_view_id());
    }
    vstd::slice::slice_to_vec(pat.as_bytes())
}

/// The `update` parameter key as bytes.
fn n_update() -> (r: Vec<u8>)
    ensures
        r@ == spec_n_update(),
{
    let pat: &str = "update";
    proof {
        reveal_strlit("update");
        assert(pat.is_ascii());
        assert(pat.spec_bytes() =~= spec_n_update());
    }
    vstd::slice::slice_to_vec(pat.as_bytes())
}

/// The `line` parameter key as bytes.
fn n_line() -> (r: Vec<u8>)
    ensures
        r@ == spec_n_line(),
{
    let pat: &str = "line";
    proof {
        reveal_strlit("line");
        assert(pat.is_ascii());
        assert(pat.spec_bytes() =~= spec_n_line());
    }
    vstd::slice::slice_to_vec(pat.as_bytes())
}

/// The `col` parameter key as bytes.
fn n_col() -> (r: Vec<u8>)
    ensures
        r@ == spec_n_col(),
{
    let pat: &str = "col";
    proof {
        reveal_strlit("col");
        assert(pat.is_ascii());
        assert(pat.spec_bytes() =~= spec_n_col());
    }
    vstd::slice::slice_to_vec(pat.as_bytes())
}

/// The `id` parameter key as bytes.
fn n_id() -> (r: Vec<u8>)
    ensures
        r@ == spec_n_id(),
{
    let pat: &str = "id";
    proof {
        reveal_strlit("id");
        assert(pat.is_ascii());
        assert(pat.spec_bytes() =~= spec_n_id());
    }
    vstd::slice::slice_to_vec(pat.as_bytes())
}

/// The `fg_color` parameter key as bytes.
fn n_fg_color() -> (r: Vec<u8>)
    ensures
        r@ == spec_n_fg_color(),
{
    let pat: &str = "fg_color";
    proof {
        reveal_strlit("fg_color");
        assert(pat.is_ascii());
        assert(pat.spec_bytes() =~= spec_n_fg_color());
    }
    vstd::slice::slice_to_vec(pat.as_bytes())
}

/// The `bg_color` parameter key as bytes.
fn n_bg_color() -> (r: Vec<u8>)
    ensures
        r@ == spec_n_bg_color(),
{
    let pat: &str = "bg_color";
    proof {
        reveal_strlit("bg_color");
        assert(pat.is_ascii());
        assert(pat.spec_bytes() =~= spec_n_bg_color());
    }
    vstd::slice::slice_to_vec(pat.as_bytes())
}

/// The `weight` parameter key as bytes.
fn n_weight() -> (r: Vec<u8>)
    ensures
        r@ == spec_n_weight(),
{
    let pat: &str = "weight";
    proof {
        reveal_strlit("weight");
        assert(pat.is_ascii());
        assert(pat.spec_bytes() =~= spec_n_weight());
    }
    vstd::slice::slice_to_vec(pat.as_bytes())
}

/// The `italic` parameter key as bytes.
fn n_italic() -> (r: Vec<u8>)
    ensures
        r@ == spec_n_italic(),
{
    let pat: &str = "italic";
    proof {
        reveal_strlit("italic");
        assert(pat.is_ascii());
        assert(pat.spec_bytes() =~= spec_n_italic());
    }
    vstd::slice::slice_to_vec(pat.as_bytes())
}

/// The `underline` parameter key as bytes.
fn n_underline() -> (r: Vec<u8>)
    ensures
        r@ == spec_n_underline(),
{
    let pat: &str = "underline";
    proof {
        reveal_strlit("underline");
        assert(pat.is_ascii());
        assert(pat.spec_bytes() =~= spec_n_underline());
    }
    vstd::slice::slice_to_vec(pat.as_bytes())
}

/// The `plugins` parameter key as bytes.
fn n_plugins() -> (r: Vec<u8>)
    ensures
        r@ == spec_n_plugins(),
{
    let pat: &str = "plugins";
    proof {
        reveal_strlit("plugins");
        assert(pat.is_ascii());
        assert(pat.spec_bytes() =~= spec_n_plugins());
    }
    vstd::slice::slice_to_vec(pat.as_bytes())
}

/// The `plugin` parameter key as bytes.
fn n_plugin() -> (r: Vec<u8>)
    ensures
        r@ == spec_n_plugin(),
{
    let pat: &str = "plugin";
    proof {
        reveal_strlit("plugin");
        assert(pat.is_ascii());
        assert(pat.spec_bytes() =~= spec_n_plugin());
    }
    vstd::slice::slice_to_vec(pat.as_bytes())
}

/// The `cmds` parameter key as bytes.
fn n_cmds() -> (r: Vec<u8>)
    ensures
        r@ == spec_n_cmds(),
{
    let pat: &str = "cmds";
    proof {
        reveal_strlit("cmds");
        assert(pat.is_ascii());
        assert(pat.spec_bytes() =~= spec_n_cmds());
    }
    vstd::slice::slice_to_vec(pat.as_bytes())
}

/// The `changes` parameter key as bytes.
fn n_changes() -> (r: Vec<u8>)
    ensures
        r@ == spec_n_changes(),
{
    let pat: &str = "changes";
    proof {
        reveal_strlit("changes");
        assert(pat.is_ascii());
        assert(pat.spec_bytes() =~= spec_n_changes());
    }
    vstd::slice::slice_to_vec(pat.as_bytes())
}

/// The `theme` parameter key as bytes.
fn n_theme() -> (r: Vec<u8>)
    ensures
        r@ == spec_n_theme(),
{
    let pat: &str = "theme";
    proof {
        reveal_strlit("theme");
        assert(pat.is_ascii());
        assert(pat.spec_bytes() =~= spec_n_theme());
    }
    vstd::slice::slice_to_vec(pat.as_bytes())
}

/// The `name` parameter key as bytes.
fn n_name() -> (r: Vec<u8>)
    ensures
        r@ == spec_n_name(),
{
    let pat: &str = "name";
    proof {
        reveal_strlit("name");
        assert(pat.is_ascii());
        assert(pat.spec_bytes() =~= spec_n_name());
    }
    vstd::slice::slice_to_vec(pat.as_bytes())
}

/// The `msg` parameter key as bytes.
fn n_msg() -> (r: Vec<u8>)
    ensures
        r@ == spec_n_msg(),
{
    let pat: &str = "msg";
    proof {
        reveal_strlit("msg");
        assert(pat.is_ascii());
        assert(pat.spec_bytes() =~= spec_n_msg());
    }
    vstd::slice::slice_to_vec(pat.as_bytes())
}

/// The `themes` parameter key as bytes.
fn n_themes() -> (r: Vec<u8>)
    ensures
        r@ == spec_n_themes(),
{
    let pat: &str = "themes";
    proof {
        reveal_strlit("themes");
        assert(pat.is_ascii());
        assert(pat.spec_bytes() =~= spec_n_themes());
    }
    vstd::slice::slice_to_vec(pat.as_bytes())
}

/// The `queries` parameter key as bytes.
fn n_queries() -> (r: Vec<u8>)
    ensures
        r@ == spec_n_queries(),
{
    let pat: &str = "queries";
    proof {
        reveal_strlit("queries");
        assert(pat.is_ascii());
        assert(pat.spec_bytes() =~= spec_n_queries());
    }
    vstd::slice::slice_to_vec(pat.as_bytes())
}

/// The `status` parameter key as bytes.
fn n_status() -> (r: Vec<u8>)
    ensures
        r@ == spec_n_status(),
{
    let pat: &str = "status";
    proof {
        reveal_strlit("status");
        assert(pat.is_ascii());
        assert(pat.spec_bytes() =~= spec_n_status());
    }
    vstd::slice::slice_to_vec(pat.as_bytes())
}

/// The `languages` parameter key as bytes.
fn n_languages() -> (r: Vec<u8>)
    ensures
        r@ == spec_n_languages(),
{
    let pat: &str = "languages";
    proof {
        reveal_strlit("languages");
        assert(pat.is_ascii());
        assert(pat.spec_bytes() =~= spec_n_languages());
    }
    vstd::slice::slice_to_vec(pat.as_bytes())
}

/// The `language_id` parameter key as bytes.
fn n_language_id() -> (r: Vec<u8>)
    ensures
        r@ == spec_n_language_id(),
{
    let pat: &str = "language_id";
    proof {
        reveal_strlit("language_id");
        assert(pat.is_ascii());
        assert(pat.spec_bytes() =~= spec_n_language_id());
    }
    vstd::slice::slice_to_vec(pat.as_bytes())
}

/// Which of us said what: a notification routed into the typed event model
/// the application layer consumes. One member of this closed set stands
/// for each notification the peer engine sends, plus the one request it
/// makes of the client (measuring rendered text).
#[derive(Debug, PartialEq, Eq)]
pub enum RpcOperations {
    Update(Update),
    ScrollTo(ScrollTo),
    DefStyle(Style),
    AvailablePlugins(AvailablePlugins),
    UpdateCmds(UpdateCmds),
    PluginStarted(PluginStarted),
    PluginStopped(PluginStopped),
    ConfigChanged(ConfigChanged),
    ThemeChanged(ThemeChanged),
    Alert(Alert),
    AvailableThemes(AvailableThemes),
    FindStatus(FindStatus),
    ReplaceStatus(ReplaceStatus),
    AvailableLanguages(AvailableLanguages),
    LanguageChanged(LanguageChanged),
    MeasureWidth((u64, MeasureWidth)),
    /// The transport closed: the one event connection loss surfaces on
    /// the operations stream. No method routes to it; the teardown path
    /// yields it once.
    Disconnected,
}

/// A buffer content change for one view; the op list stays as it came.
#[derive(Debug, PartialEq, Eq)]
pub struct Update {
    pub view_id: Vec<u8>,
    pub update: Json,
}

/// A request to bring a position into view.
#[derive(Debug, PartialEq, Eq)]
pub struct ScrollTo {
    pub view_id: Vec<u8>,
    pub line: u64,
    pub col: u64,
}

/// A style definition; colors are packed ARGB words.
#[derive(Debug, Clone, Copy, PartialEq, Eq)]
pub struct Style {
    pub id: u64,
    pub fg_color: Option<u32>,
    pub bg_color: Option<u32>,
    pub weight: Option<u64>,
    pub italic: Option<bool>,
    pub underline: Option<bool>,
}

/// The plugins available to one view.
#[derive(Debug, PartialEq, Eq)]
pub struct AvailablePlugins {
    pub view_id: Vec<u8>,
    pub plugins: Json,
}

/// New commands a plugin offers for one view.
#[derive(Debug, PartialEq, Eq)]
pub struct UpdateCmds {
    pub view_id: Vec<u8>,
    pub cmds: Json,
}

/// A plugin began running for one view.
#[derive(Debug, PartialEq, Eq)]
pub struct PluginStarted {
    pub view_id: Vec<u8>,
    pub plugin: Vec<u8>,
}

/// A plugin stopped for one view.
#[derive(Debug, PartialEq, Eq)]
pub struct PluginStopped {
    pub view_id: Vec<u8>,
    pub plugin: Vec<u8>,
}

/// A view's effective configuration changed.
#[derive(Debug, PartialEq, Eq)]
pub struct ConfigChanged {
    pub view_id: Vec<u8>,
    pub changes: Json,
}

/// The color theme changed; the settings stay as they came.
#[derive(Debug, PartialEq, Eq)]
pub struct ThemeChanged {
    pub name: Vec<u8>,
    pub theme: Json,
}

/// A message the user should see.
#[derive(Debug, PartialEq, Eq)]
pub struct Alert {
    pub msg: Vec<u8>,
}

/// The theme names the peer offers.
#[derive(Debug, PartialEq, Eq)]
pub struct AvailableThemes {
    pub themes: Vec<Vec<u8>>,
}

/// Find results for one view.
#[derive(Debug, PartialEq, Eq)]
pub struct FindStatus {
    pub view_id: Vec<u8>,
    pub queries: Json,
}

/// Replace status for one view.
#[derive(Debug, PartialEq, Eq)]
pub struct ReplaceStatus {
    pub view_id: Vec<u8>,
    pub status: Json,
}

/// The language names the peer offers.
#[derive(Debug, PartialEq, Eq)]
pub struct AvailableLanguages {
    pub languages: Vec<Vec<u8>>,
}

/// The syntax language of one view changed.
#[derive(Debug, PartialEq, Eq)]
pub struct LanguageChanged {
    pub view_id: Vec<u8>,
    pub language_id: Vec<u8>,
}

/// The peer asks the client to measure rendered text; only the windowing
/// layer can answer, so the queries pass through as they came.
#[derive(Debug, PartialEq, Eq)]
pub struct MeasureWidth {
    pub queries: Json,
}

/// Why a notification could not be routed. Both cases are recoverable:
/// the reader loop records them and goes on.
#[derive(Debug, Clone, PartialEq, Eq)]
pub enum RouteError {
    UnknownMethod(Vec<u8>),
    InvalidPayload,
}

/// The index of `k` in `keys`, if present.
fn find_key(keys: &Vec<Vec<u8>>, k: &Vec<u8>) -> (r: Option<usize>)
    ensures
        match r {
            Some(i) => i < keys@.len() && keys@[i as int]@ == k@,
            None => forall|i: int| 0 <= i < keys@.len() ==> keys@[i]@ != k@,
        },
{
    let n = keys.len();
    let mut i: usize = 0;
    while i < n
        invariant
            i <= n,
            n == keys@.len(),
            forall|j: int| 0 <= j < i ==> keys@[j]@ != k@,
        decreases n - i,
    {
        if bytes_eq(k, keys[i].as_slice()) {
            return Some(i);
        }
        i = i + 1;
    }
    None
}

/// Walks an object's members once and hands out, for each wanted key, the
/// value under its first occurrence.
fn take_fields(ms: Vec<Member>, keys: &Vec<Vec<u8>>) -> (r: Vec<Option<Json>>)
    requires
        forall|i: int, j: int| 0 <= i < j < keys@.len() ==> keys@[i]@ != keys@[j]@,
    ensures
        r@.len() == keys@.len(),
        forall|i: int|
            0 <= i < keys@.len() ==> opt_jv(#[trigger] r@[i]) == spec_get(
                jv_members(ms@),
                keys@[i]@,
            ),
{
    let mut ms = ms;
    let nk = keys.len();
    let mut r: Vec<Option<Json>> = Vec::new();
    let mut t: usize = 0;
    while t < nk
        invariant
            t <= nk,
            r@.len() == t,
            forall|i: int| 0 <= i < t ==> r@[i] is None,
        decreases nk - t,
    {
        r.push(None);
        t = t + 1;
    }
    let ghost orig: Seq<Member> = ms@;
    let ghost origv: Seq<MemberV> = jv_members(orig);
    proof {
        assert(orig.take(orig.len() as int) =~= orig);
    }
    while ms.len() > 0
        invariant
            ms@.len() <= orig.len(),
            ms@ == orig.take(ms@.len() as int),
            origv == jv_members(orig),
            nk == keys@.len(),
            r@.len() == nk,
            forall|i: int, j: int| 0 <= i < j < keys@.len() ==> keys@[i]@ != keys@[j]@,
            forall|i: int|
                0 <= i < nk ==> spec_get(origv, keys@[i]@) == first_or(
                    spec_get(jv_members(ms@), keys@[i]@),
                    opt_jv(#[trigger] r@[i]),
                ),
        decreases ms@.len(),
    {
        let ghost prev: Seq<Member> = ms@;
        let mem = ms.pop().unwrap();
        proof {
            assert(prev =~= ms@.push(mem));
            lemma_jv_members_props(prev);
            lemma_jv_members_props(ms@);
            assert(jv_members(prev) =~= jv_members(ms@).push(mem@));
            assert(ms@ =~= orig.take(ms@.len() as int));
        }
        let hit = find_key(keys, &mem.key);
        match hit {
            Some(k) => {
                let ghost oldr = r@;
                r.set(k, Some(mem.value));
                proof {
                    assert forall|i: int|
                        0 <= i < nk implies spec_get(origv, keys@[i]@) == first_or(
                        spec_get(jv_members(ms@), keys@[i]@),
                        opt_jv(#[trigger] r@[i]),
                    ) by {
                        lemma_get_snoc(jv_members(ms@), mem@, keys@[i]@);
                        if i != k {
                            assert(keys@[i]@ != keys@[k as int]@);
                            assert(r@[i] == oldr[i]);
                        }
                    }
                }
            },
            None => {
                proof {
                    assert forall|i: int|
                        0 <= i < nk implies spec_get(origv, keys@[i]@) == first_or(
                        spec_get(jv_members(ms@), keys@[i]@),
                        opt_jv(#[trigger] r@[i]),
                    ) by {
                        lemma_get_snoc(jv_members(ms@), mem@, keys@[i]@);
                        assert(keys@[i]@ != mem.key@);
                    }
                }
            },
        }
    }
    proof {
        assert(ms@ =~= Seq::<Member>::empty());
        assert(jv_members(ms@) =~= Seq::<MemberV>::empty());
        assert forall|i: int|
            0 <= i < nk implies opt_jv(#[trigger] r@[i]) == spec_get(origv, keys@[i]@) by {
            assert(spec_get(Seq::<MemberV>::empty(), keys@[i]@) is None);
        }
    }
    r
}

/// The string under `k` in parameter object `p`, if `p` is an object and
/// the member is a string.
pub open spec fn spec_str_field(p: JsonV, k: Seq<u8>) -> Option<Seq<u8>> {
    match p {
        JsonV::Obj(ms) => match spec_get(ms, k) {
            Some(JsonV::Str(a)) => Some(a),
            _ => None,
        },
        _ => None,
    }
}

/// The value under `k` in parameter object `p`, if any.
pub open spec fn spec_json_field(p: JsonV, k: Seq<u8>) -> Option<JsonV> {
    match p {
        JsonV::Obj(ms) => spec_get(ms, k),
        _ => None,
    }
}

/// The unsigned number under `k`, if the member is a plain integer.
pub open spec fn spec_u64_field(p: JsonV, k: Seq<u8>) -> Option<u64> {
    match spec_json_field(p, k) {
        Some(JsonV::Num(lex)) => spec_id_of(lex),
        _ => None,
    }
}

/// A string member under `k1` paired with any member under `k2`.
pub open spec fn spec_str_json(p: JsonV, k1: Seq<u8>, k2: Seq<u8>) -> Option<(Seq<u8>, JsonV)> {
    match (spec_str_field(p, k1), spec_json_field(p, k2)) {
        (Some(a), Some(b)) => Some((a, b)),
        _ => None,
    }
}

/// String members under `k1` and `k2`.
pub open spec fn spec_str_str(p: JsonV, k1: Seq<u8>, k2: Seq<u8>) -> Option<(Seq<u8>, Seq<u8>)> {
    match (spec_str_field(p, k1), spec_str_field(p, k2)) {
        (Some(a), Some(b)) => Some((a, b)),
        _ => None,
    }
}

/// A scroll target: view, line, column.
pub open spec fn spec_scroll_to_of(p: JsonV) -> Option<(Seq<u8>, u64, u64)> {
    match (spec_str_field(p, spec_n_view_id()), spec_u64_field(p, spec_n_line()), spec_u64_field(
        p,
        spec_n_col(),
    )) {
        (Some(a), Some(l), Some(c)) => Some((a, l, c)),
        _ => None,
    }
}

/// The strings of a list of JSON values, provided every element is one.
pub open spec fn spec_strs_of(s: Seq<JsonV>) -> Option<Seq<Seq<u8>>>
    decreases s.len(),
{
    if s.len() == 0 {
        Some(Seq::empty())
    } else {
        match s[0] {
            JsonV::Str(a) => match spec_strs_of(s.drop_first()) {
                Some(rest) => Some(seq![a] + rest),
                None => None,
            },
            _ => None,
        }
    }
}

/// The string list under `k`, if the member is an array of strings.
pub open spec fn spec_str_list(p: JsonV, k: Seq<u8>) -> Option<Seq<Seq<u8>>> {
    match spec_json_field(p, k) {
        Some(JsonV::Arr(es)) => spec_strs_of(es),
        _ => None,
    }
}

/// An optional packed color under `k`: absent is fine, a fitting integer
/// is taken, anything else is a shape error (the outer `None`).
pub open spec fn spec_opt_u32_field(p: JsonV, k: Seq<u8>) -> Option<Option<u32>> {
    match spec_json_field(p, k) {
        None => Some(None),
        Some(JsonV::Num(lex)) => match spec_id_of(lex) {
            Some(v) => if v <= u32::MAX {
                Some(Some(v as u32))
            } else {
                None
            },
            None => None,
        },
        Some(_) => None,
    }
}

/// An optional unsigned number under `k`.
pub open spec fn spec_opt_u64_field(p: JsonV, k: Seq<u8>) -> Option<Option<u64>> {
    match spec_json_field(p, k) {
        None => Some(None),
        Some(JsonV::Num(lex)) => match spec_id_of(lex) {
            Some(v) => Some(Some(v)),
            None => None,
        },
        Some(_) => None,
    }
}

/// An optional boolean under `k`.
pub open spec fn spec_opt_bool_field(p: JsonV, k: Seq<u8>) -> Option<Option<bool>> {
    match spec_json_field(p, k) {
        None => Some(None),
        Some(JsonV::Bool(b)) => Some(Some(b)),
        Some(_) => None,
    }
}

/// A style definition's fields: the identifier and its optional looks.
pub open spec fn spec_style_of(p: JsonV) -> Option<
    (u64, Option<u32>, Option<u32>, Option<u64>, Option<bool>, Option<bool>),
> {
    match (spec_u64_field(p, spec_n_id()), spec_opt_u32_field(p, spec_n_fg_color()),
    spec_opt_u32_field(p, spec_n_bg_color()), spec_opt_u64_field(p, spec_n_weight()),
    spec_opt_bool_field(p, spec_n_italic()), spec_opt_bool_field(p, spec_n_underline())) {
        (Some(id), Some(fg), Some(bg), Some(w), Some(it), Some(un)) => Some((id, fg, bg, w, it, un)),
        _ => None,
    }
}

/// The byte texts of a list of byte vectors.
pub open spec fn views_of(s: Seq<Vec<u8>>) -> Seq<Seq<u8>>
    decreases s.len(),
{
    if s.len() == 0 {
        Seq::empty()
    } else {
        seq![s[0]@] + views_of(s.drop_first())
    }
}

/// Extending a value list by one keeps the string reading exactly when the
/// new element is a string.
proof fn lemma_strs_of_snoc(s: Seq<JsonV>, x: JsonV)
    ensures
        x is Str && spec_strs_of(s) is Some ==> spec_strs_of(s.push(x)) == Some(
            spec_strs_of(s)->Some_0.push(x->Str_0),
        ),
        !(x is Str) || spec_strs_of(s) is None ==> spec_strs_of(s.push(x)) is None,
    decreases s.len(),
{
    if s.len() == 0 {
        assert(s.push(x).len() == 1);
        assert(s.push(x)[0] == x);
        assert(s.push(x).drop_first() =~= Seq::<JsonV>::empty());
        assert(spec_strs_of(Seq::<JsonV>::empty()) == Some(Seq::<Seq<u8>>::empty()));
        assert(spec_strs_of(s) == Some(Seq::<Seq<u8>>::empty()));
        if x is Str {
            let a = x->Str_0;
            assert(spec_strs_of(s.push(x)) == Some(seq![a] + Seq::<Seq<u8>>::empty()));
            assert(seq![a] + Seq::<Seq<u8>>::empty() =~= Seq::<Seq<u8>>::empty().push(a));
        } else {
            assert(spec_strs_of(s.push(x)) is None);
        }
    } else {
        assert(s.push(x)[0] == s[0]);
        assert(s.push(x).drop_first() =~= s.drop_first().push(x));
        lemma_strs_of_snoc(s.drop_first(), x);
        if s[0] is Str {
            let a0 = s[0]->Str_0;
            if x is Str && spec_strs_of(s.drop_first()) is Some {
                let a = x->Str_0;
                let rest = spec_strs_of(s.drop_first())->Some_0;
                assert(spec_strs_of(s.drop_first().push(x)) == Some(rest.push(a)));
                assert(spec_strs_of(s.push(x)) == Some(seq![a0] + rest.push(a)));
                assert(spec_strs_of(s) == Some(seq![a0] + rest));
                assert(seq![a0] + rest.push(a) =~= (seq![a0] + rest).push(a));
            } else {
                assert(spec_strs_of(s.drop_first().push(x)) is None);
                assert(spec_strs_of(s.push(x)) is None);
            }
        } else {
            assert(spec_strs_of(s.push(x)) is None);
            assert(spec_strs_of(s) is None);
        }
    }
}

/// Prepending a converted element to the output list.
proof fn lemma_views_of_cons(x: Vec<u8>, s: Seq<Vec<u8>>)
    ensures
        views_of(seq![x] + s) == seq![x@] + views_of(s),
{
    let c = seq![x] + s;
    assert(c[0] == x);
    assert(c.drop_first() =~= s);
    assert(views_of(c) =~= seq![x@] + views_of(s));
}

/// Pulls a string member and an arbitrary member out of a parameter
/// object.
fn decode_str_json(params: Json, k1: Vec<u8>, k2: Vec<u8>) -> (r: Result<
    (Vec<u8>, Json),
    RouteError,
>)
    requires
        k1@ != k2@,
    ensures
        match spec_str_json(jv(params), k1@, k2@) {
            Some((a, b)) => r matches Ok(p2) && p2.0@ == a && jv(p2.1) == b,
            None => r == Err::<(Vec<u8>, Json), RouteError>(RouteError::InvalidPayload),
        },
{
    let ghost pv = jv(params);
    let ms = match params {
        Json::Obj(ms) => ms,
        _ => {
            return Err(RouteError::InvalidPayload);
        },
    };
    let mut keys: Vec<Vec<u8>> = Vec::new();
    let ghost k1v = k1@;
    let ghost k2v = k2@;
    keys.push(k1);
    keys.push(k2);
    let mut got = take_fields(ms, &keys);
    let b = got.pop().unwrap();
    let a = got.pop().unwrap();
    proof {
        assert(opt_jv(a) == spec_get(pv->Obj_0, k1v));
        assert(opt_jv(b) == spec_get(pv->Obj_0, k2v));
    }
    let av = match a {
        Some(Json::Str(v)) => v,
        _ => {
            return Err(RouteError::InvalidPayload);
        },
    };
    let bv = match b {
        Some(v) => v,
        None => {
            return Err(RouteError::InvalidPayload);
        },
    };
    Ok((av, bv))
}

/// Pulls two string members out of a parameter object.
fn decode_str_str(params: Json, k1: Vec<u8>, k2: Vec<u8>) -> (r: Result<
    (Vec<u8>, Vec<u8>),
    RouteError,
>)
    requires
        k1@ != k2@,
    ensures
        match spec_str_str(jv(params), k1@, k2@) {
            Some((a, b)) => r matches Ok(p2) && p2.0@ == a && p2.1@ == b,
            None => r == Err::<(Vec<u8>, Vec<u8>), RouteError>(RouteError::InvalidPayload),
        },
{
    let ghost pv = jv(params);
    let ms = match params {
        Json::Obj(ms) => ms,
        _ => {
            return Err(RouteError::InvalidPayload);
        },
    };
    let mut keys: Vec<Vec<u8>> = Vec::new();
    let ghost k1v = k1@;
    let ghost k2v = k2@;
    keys.push(k1);
    keys.push(k2);
    let mut got = take_fields(ms, &keys);
    let b = got.pop().unwrap();
    let a = got.pop().unwrap();
    proof {
        assert(opt_jv(a) == spec_get(pv->Obj_0, k1v));
        assert(opt_jv(b) == spec_get(pv->Obj_0, k2v));
    }
    let av = match a {
        Some(Json::Str(v)) => v,
        _ => {
            return Err(RouteError::InvalidPayload);
        },
    };
    let bv = match b {
        Some(Json::Str(v)) => v,
        _ => {
            return Err(RouteError::InvalidPayload);
        },
    };
    Ok((av, bv))
}

/// Pulls one string member out of a parameter object.
fn decode_str_field(params: Json, k: Vec<u8>) -> (r: Result<Vec<u8>, RouteError>)
    ensures
        match spec_str_field(jv(params), k@) {
            Some(a) => r matches Ok(v) && v@ == a,
            None => r == Err::<Vec<u8>, RouteError>(RouteError::InvalidPayload),
        },
{
    let ghost pv = jv(params);
    let ms = match params {
        Json::Obj(ms) => ms,
        _ => {
            return Err(RouteError::InvalidPayload);
        },
    };
    let mut keys: Vec<Vec<u8>> = Vec::new();
    let ghost kv = k@;
    keys.push(k);
    let mut got = take_fields(ms, &keys);
    let a = got.pop().unwrap();
    proof {
        assert(opt_jv(a) == spec_get(pv->Obj_0, kv));
    }
    match a {
        Some(Json::Str(v)) => Ok(v),
        _ => Err(RouteError::InvalidPayload),
    }
}

/// Pulls a string list member out of a parameter object.
fn decode_str_list(params: Json, k: Vec<u8>) -> (r: Result<Vec<Vec<u8>>, RouteError>)
    ensures
        match spec_str_list(jv(params), k@) {
            Some(ss) => r matches Ok(v) && views_of(v@) == ss,
            None => r == Err::<Vec<Vec<u8>>, RouteError>(RouteError::InvalidPayload),
        },
{
    let ghost pv = jv(params);
    let ms = match params {
        Json::Obj(ms) => ms,
        _ => {
            return Err(RouteError::InvalidPayload);
        },
    };
    let mut keys: Vec<Vec<u8>> = Vec::new();
    let ghost kv = k@;
    keys.push(k);
    let mut got = take_fields(ms, &keys);
    let a = got.pop().unwrap();
    proof {
        assert(opt_jv(a) == spec_get(pv->Obj_0, kv));
    }
    let mut es = match a {
        Some(Json::Arr(es)) => es,
        _ => {
            return Err(RouteError::InvalidPayload);
        },
    };
    let ghost orig: Seq<Json> = es@;
    let ghost origv: Seq<JsonV> = crate::json::jv_seq(orig);
    proof {
        assert(orig.take(orig.len() as int) =~= orig);
    }
    let mut out: Vec<Vec<u8>> = Vec::new();
    let mut bad: bool = false;
    while es.len() > 0
        invariant
            es@.len() <= orig.len(),
            es@ == orig.take(es@.len() as int),
            origv == crate::json::jv_seq(orig),
            bad ==> spec_strs_of(origv) is None,
            !bad ==> match spec_strs_of(crate::json::jv_seq(es@)) {
                Some(pre) => spec_strs_of(origv) == Some(pre + views_of(out@)),
                None => spec_strs_of(origv) is None,
            },
        decreases es@.len(),
    {
        let ghost prev: Seq<Json> = es@;
        let x = es.pop().unwrap();
        proof {
            assert(prev =~= es@.push(x));
            crate::json::lemma_jv_seq_props(prev);
            crate::json::lemma_jv_seq_props(es@);
            assert(crate::json::jv_seq(prev) =~= crate::json::jv_seq(es@).push(jv(x)));
            lemma_strs_of_snoc(crate::json::jv_seq(es@), jv(x));
            assert(es@ =~= orig.take(es@.len() as int));
        }
        match x {
            Json::Str(sx) => {
                let ghost oldout = out@;
                let ghost sxv = sx@;
                out.insert(0, sx);
                proof {
                    assert(out@ =~= seq![out@[0]] + oldout);
                    lemma_views_of_cons(out@[0], oldout);
                    if !bad {
                        match spec_strs_of(crate::json::jv_seq(es@)) {
                            Some(pre) => {
                                assert(pre.push(sxv) + views_of(oldout) =~= pre + (seq![sxv]
                                    + views_of(oldout)));
                            },
                            None => {},
                        }
                    }
                }
            },
            _ => {
                bad = true;
            },
        }
    }
    if bad {
        return Err(RouteError::InvalidPayload);
    }
    proof {
        assert(es@ =~= Seq::<Json>::empty());
        assert(crate::json::jv_seq(es@) =~= Seq::<JsonV>::empty());
        assert(spec_strs_of(Seq::<JsonV>::empty()) == Some(Seq::<Seq<u8>>::empty()));
        match spec_strs_of(origv) {
            Some(ss) => {
                assert(Seq::<Seq<u8>>::empty() + views_of(out@) =~= views_of(out@));
            },
            None => {},
        }
    }
    Ok(out)
}

/// Decodes a scroll target.
fn decode_scroll_to(params: Json) -> (r: Result<ScrollTo, RouteError>)
    ensures
        match spec_scroll_to_of(jv(params)) {
            Some((a, l, c)) => r matches Ok(s) && s.view_id@ == a && s.line == l && s.col == c,
            None => r == Err::<ScrollTo, RouteError>(RouteError::InvalidPayload),
        },
{
    let ghost pv = jv(params);
    let ms = match params {
        Json::Obj(ms) => ms,
        _ => {
            return Err(RouteError::InvalidPayload);
        },
    };
    let mut keys: Vec<Vec<u8>> = Vec::new();
    keys.push(n_view_id());
    keys.push(n_line());
    keys.push(n_col());
    let mut got = take_fields(ms, &keys);
    let c = got.pop().unwrap();
    let l = got.pop().unwrap();
    let a = got.pop().unwrap();
    proof {
        assert(opt_jv(a) == spec_get(pv->Obj_0, spec_n_view_id()));
        assert(opt_jv(l) == spec_get(pv->Obj_0, spec_n_line()));
        assert(opt_jv(c) == spec_get(pv->Obj_0, spec_n_col()));
    }
    let av = match a {
        Some(Json::Str(v)) => v,
        _ => {
            return Err(RouteError::InvalidPayload);
        },
    };
    let lv = match l {
        Some(Json::Num(lex)) => match parse_u64(lex.as_slice()) {
            Some(v) => v,
            None => {
                return Err(RouteError::InvalidPayload);
            },
        },
        _ => {
            return Err(RouteError::InvalidPayload);
        },
    };
    let cv = match c {
        Some(Json::Num(lex)) => match parse_u64(lex.as_slice()) {
            Some(v) => v,
            None => {
                return Err(RouteError::InvalidPayload);
            },
        },
        _ => {
            return Err(RouteError::InvalidPayload);
        },
    };
    Ok(ScrollTo { view_id: av, line: lv, col: cv })
}

/// Decodes a style definition.
fn decode_style(params: Json) -> (r: Result<Style, RouteError>)
    ensures
        match spec_style_of(jv(params)) {
            Some((id, fg, bg, w, it, un)) => r matches Ok(s) && s.id == id && s.fg_color == fg
                && s.bg_color == bg && s.weight == w && s.italic == it && s.underline == un,
            None => r == Err::<Style, RouteError>(RouteError::InvalidPayload),
        },
{
    let ghost pv = jv(params);
    let ms = match params {
        Json::Obj(ms) => ms,
        _ => {
            return Err(RouteError::InvalidPayload);
        },
    };
    let mut keys: Vec<Vec<u8>> = Vec::new();
    keys.push(n_id());
    keys.push(n_fg_color());
    keys.push(n_bg_color());
    keys.push(n_weight());
    keys.push(n_italic());
    keys.push(n_underline());
    let mut got = take_fields(ms, &keys);
    let un = got.pop().unwrap();
    let it = got.pop().unwrap();
    let w = got.pop().unwrap();
    let bg = got.pop().unwrap();
    let fg = got.pop().unwrap();
    let idf = got.pop().unwrap();
    proof {
        assert(opt_jv(idf) == spec_get(pv->Obj_0, spec_n_id()));
        assert(opt_jv(fg) == spec_get(pv->Obj_0, spec_n_fg_color()));
        assert(opt_jv(bg) == spec_get(pv->Obj_0, spec_n_bg_color()));
        assert(opt_jv(w) == spec_get(pv->Obj_0, spec_n_weight()));
        assert(opt_jv(it) == spec_get(pv->Obj_0, spec_n_italic()));
        assert(opt_jv(un) == spec_get(pv->Obj_0, spec_n_underline()));
    }
    let idv = match idf {
        Some(Json::Num(lex)) => match parse_u64(lex.as_slice()) {
            Some(v) => v,
            None => {
                return Err(RouteError::InvalidPayload);
            },
        },
        _ => {
            return Err(RouteError::InvalidPayload);
        },
    };
    let fgv: Option<u32> = match fg {
        None => None,
        Some(Json::Num(lex)) => match parse_u64(lex.as_slice()) {
            Some(v) => if v <= 0xFFFF_FFFFu64 {
                Some(v as u32)
            } else {
                return Err(RouteError::InvalidPayload);
            },
            None => {
                return Err(RouteError::InvalidPayload);
            },
        },
        Some(_) => {
            return Err(RouteError::InvalidPayload);
        },
    };
    let bgv: Option<u32> = match bg {
        None => None,
        Some(Json::Num(lex)) => match parse_u64(lex.as_slice()) {
            Some(v) => if v <= 0xFFFF_FFFFu64 {
                Some(v as u32)
            } else {
                return Err(RouteError::InvalidPayload);
            },
            None => {
                return Err(RouteError::InvalidPayload);
            },
        },
        Some(_) => {
            return Err(RouteError::InvalidPayload);
        },
    };
    let wv: Option<u64> = match w {
        None => None,
        Some(Json::Num(lex)) => match parse_u64(lex.as_slice()) {
            Some(v) => Some(v),
            None => {
                return Err(RouteError::InvalidPayload);
            },
        },
        Some(_) => {
            return Err(RouteError::InvalidPayload);
        },
    };
    let itv: Option<bool> = match it {
        None => None,
        Some(Json::Bool(b)) => Some(b),
        Some(_) => {
            return Err(RouteError::InvalidPayload);
        },
    };
    let unv: Option<bool> = match un {
        None => None,
        Some(Json::Bool(b)) => Some(b),
        Some(_) => {
            return Err(RouteError::InvalidPayload);
        },
    };
    Ok(Style { id: idv, fg_color: fgv, bg_color: bgv, weight: wv, italic: itv, underline: unv })
}

/// The closed set of notification methods the router understands.
pub open spec fn spec_known(m: Seq<u8>) -> bool {
    if m == spec_m_update() {
        true
    } else if m == spec_m_scroll_to() {
        true
    } else if m == spec_m_def_style() {
        true
    } else if m == spec_m_available_plugins() {
        true
    } else if m == spec_m_plugin_started() {
        true
    } else if m == spec_m_plugin_stopped() {
        true
    } else if m == spec_m_update_cmds() {
        true
    } else if m == spec_m_config_changed() {
        true
    } else if m == spec_m_theme_changed() {
        true
    } else if m == spec_m_alert() {
        true
    } else if m == spec_m_available_themes() {
        true
    } else if m == spec_m_find_status() {
        true
    } else if m == spec_m_replace_status() {
        true
    } else if m == spec_m_available_languages() {
        true
    } else if m == spec_m_language_changed() {
        true
    } else {
        false
    }
}

/// Whether the parameters fit the shape the method expects.
pub open spec fn spec_shape_ok(m: Seq<u8>, p: JsonV) -> bool {
    if m == spec_m_update() {
        spec_str_json(p, spec_n_view_id(), spec_n_update()) is Some
    } else if m == spec_m_scroll_to() {
        spec_scroll_to_of(p) is Some
    } else if m == spec_m_def_style() {
        spec_style_of(p) is Some
    } else if m == spec_m_available_plugins() {
        spec_str_json(p, spec_n_view_id(), spec_n_plugins()) is Some
    } else if m == spec_m_plugin_started() {
        spec_str_str(p, spec_n_view_id(), spec_n_plugin()) is Some
    } else if m == spec_m_plugin_stopped() {
        spec_str_str(p, spec_n_view_id(), spec_n_plugin()) is Some
    } else if m == spec_m_update_cmds() {
        spec_str_json(p, spec_n_view_id(), spec_n_cmds()) is Some
    } else if m == spec_m_config_changed() {
        spec_str_json(p, spec_n_view_id(), spec_n_changes()) is Some
    } else if m == spec_m_theme_changed() {
        spec_str_json(p, spec_n_name(), spec_n_theme()) is Some
    } else if m == spec_m_alert() {
        spec_str_field(p, spec_n_msg()) is Some
    } else if m == spec_m_available_themes() {
        spec_str_list(p, spec_n_themes()) is Some
    } else if m == spec_m_find_status() {
        spec_str_json(p, spec_n_view_id(), spec_n_queries()) is Some
    } else if m == spec_m_replace_status() {
        spec_str_json(p, spec_n_view_id(), spec_n_status()) is Some
    } else if m == spec_m_available_languages() {
        spec_str_list(p, spec_n_languages()) is Some
    } else if m == spec_m_language_changed() {
        spec_str_str(p, spec_n_view_id(), spec_n_language_id()) is Some
    } else {
        false
    }
}

/// Whether `op` is exactly the operation the method and parameters stand
/// for: the matching member of the closed set, carrying the decoded
/// payload.
pub open spec fn spec_route_ok(m: Seq<u8>, p: JsonV, op: RpcOperations) -> bool {
    if m == spec_m_update() {
        match op {
            RpcOperations::Update(u) => spec_str_json(p, spec_n_view_id(), spec_n_update())
                == Some((u.view_id@, jv(u.update))),
            _ => false,
        }
    } else if m == spec_m_scroll_to() {
        match op {
            RpcOperations::ScrollTo(s) => spec_scroll_to_of(p) == Some((s.view_id@, s.line, s.col)),
            _ => false,
        }
    } else if m == spec_m_def_style() {
        match op {
            RpcOperations::DefStyle(s) => spec_style_of(p) == Some(
                (s.id, s.fg_color, s.bg_color, s.weight, s.italic, s.underline),
            ),
            _ => false,
        }
    } else if m == spec_m_available_plugins() {
        match op {
            RpcOperations::AvailablePlugins(u) => spec_str_json(
                p,
                spec_n_view_id(),
                spec_n_plugins(),
            ) == Some((u.view_id@, jv(u.plugins))),
            _ => false,
        }
    } else if m == spec_m_plugin_started() {
        match op {
            RpcOperations::PluginStarted(u) => spec_str_str(p, spec_n_view_id(), spec_n_plugin())
                == Some((u.view_id@, u.plugin@)),
            _ => false,
        }
    } else if m == spec_m_plugin_stopped() {
        match op {
            RpcOperations::PluginStopped(u) => spec_str_str(p, spec_n_view_id(), spec_n_plugin())
                == Some((u.view_id@, u.plugin@)),
            _ => false,
        }
    } else if m == spec_m_update_cmds() {
        match op {
            RpcOperations::UpdateCmds(u) => spec_str_json(p, spec_n_view_id(), spec_n_cmds())
                == Some((u.view_id@, jv(u.cmds))),
            _ => false,
        }
    } else if m == spec_m_config_changed() {
        match op {
            RpcOperations::ConfigChanged(u) => spec_str_json(
                p,
                spec_n_view_id(),
                spec_n_changes(),
            ) == Some((u.view_id@, jv(u.changes))),
            _ => false,
        }
    } else if m == spec_m_theme_changed() {
        match op {
            RpcOperations::ThemeChanged(u) => spec_str_json(p, spec_n_name(), spec_n_theme())
                == Some((u.name@, jv(u.theme))),
            _ => false,
        }
    } else if m == spec_m_alert() {
        match op {
            RpcOperations::Alert(u) => spec_str_field(p, spec_n_msg()) == Some(u.msg@),
            _ => false,
        }
    } else if m == spec_m_available_themes() {
        match op {
            RpcOperations::AvailableThemes(u) => spec_str_list(p, spec_n_themes()) == Some(
                views_of(u.themes@),
            ),
            _ => false,
        }
    } else if m == spec_m_find_status() {
        match op {
            RpcOperations::FindStatus(u) => spec_str_json(p, spec_n_view_id(), spec_n_queries())
                == Some((u.view_id@, jv(u.queries))),
            _ => false,
        }
    } else if m == spec_m_replace_status() {
        match op {
            RpcOperations::ReplaceStatus(u) => spec_str_json(p, spec_n_view_id(), spec_n_status())
                == Some((u.view_id@, jv(u.status))),
            _ => false,
        }
    } else if m == spec_m_available_languages() {
        match op {
            RpcOperations::AvailableLanguages(u) => spec_str_list(p, spec_n_languages()) == Some(
                views_of(u.languages@),
            ),
            _ => false,
        }
    } else if m == spec_m_language_changed() {
        match op {
            RpcOperations::LanguageChanged(u) => spec_str_str(
                p,
                spec_n_view_id(),
                spec_n_language_id(),
            ) == Some((u.view_id@, u.language_id@)),
            _ => false,
        }
    } else {
        false
    }
}

/// Routes one notification to its typed domain operation. Exactly the
/// known methods with fitting parameters succeed; an unknown method comes
/// back by name, a known method with parameters of the wrong shape as
/// `InvalidPayload`. Both are recoverable, as the protocol demands.
pub fn route(method: Vec<u8>, params: Json) -> (r: Result<RpcOperations, RouteError>)
    ensures
        match r {
            Ok(op) => spec_known(method@) && spec_shape_ok(method@, jv(params)) && spec_route_ok(
                method@,
                jv(params),
                op,
            ),
            Err(RouteError::UnknownMethod(m2)) => m2@ == method@ && !spec_known(method@),
            Err(RouteError::InvalidPayload) => spec_known(method@) && !spec_shape_ok(
                method@,
                jv(params),
            ),
        },
{
    let pat = m_update();
    if bytes_eq(&method, pat.as_slice()) {
        return match decode_str_json(params, n_view_id(), n_update()) {
            Ok((view_id, update)) => Ok(RpcOperations::Update(Update { view_id, update })),
            Err(e) => Err(e),
        };
    }
    let pat = m_scroll_to();
    if bytes_eq(&method, pat.as_slice()) {
        return match decode_scroll_to(params) {
            Ok(s) => Ok(RpcOperations::ScrollTo(s)),
            Err(e) => Err(e),
        };
    }
    let pat = m_def_style();
    if bytes_eq(&method, pat.as_slice()) {
        return match decode_style(params) {
            Ok(s) => Ok(RpcOperations::DefStyle(s)),
            Err(e) => Err(e),
        };
    }
    let pat = m_available_plugins();
    if bytes_eq(&method, pat.as_slice()) {
        return match decode_str_json(params, n_view_id(), n_plugins()) {
            Ok((view_id, plugins)) => Ok(
                RpcOperations::AvailablePlugins(AvailablePlugins { view_id, plugins }),
            ),
            Err(e) => Err(e),
        };
    }
    let pat = m_plugin_started();
    if bytes_eq(&method, pat.as_slice()) {
        return match decode_str_str(params, n_view_id(), n_plugin()) {
            Ok((view_id, plugin)) => Ok(
                RpcOperations::PluginStarted(PluginStarted { view_id, plugin }),
            ),
            Err(e) => Err(e),
        };
    }
    let pat = m_plugin_stopped();
    if bytes_eq(&method, pat.as_slice()) {
        return match decode_str_str(params, n_view_id(), n_plugin()) {
            Ok((view_id, plugin)) => Ok(
                RpcOperations::PluginStopped(PluginStopped { view_id, plugin }),
            ),
            Err(e) => Err(e),
        };
    }
    let pat = m_update_cmds();
    if bytes_eq(&method, pat.as_slice()) {
        return match decode_str_json(params, n_view_id(), n_cmds()) {
            Ok((view_id, cmds)) => Ok(RpcOperations::UpdateCmds(UpdateCmds { view_id, cmds })),
            Err(e) => Err(e),
        };
    }
    let pat = m_config_changed();
    if bytes_eq(&method, pat.as_slice()) {
        return match decode_str_json(params, n_view_id(), n_changes()) {
            Ok((view_id, changes)) => Ok(
                RpcOperations::ConfigChanged(ConfigChanged { view_id, changes }),
            ),
            Err(e) => Err(e),
        };
    }
    let pat = m_theme_changed();
    if bytes_eq(&method, pat.as_slice()) {
        return match decode_str_json(params, n_name(), n_theme()) {
            Ok((name, theme)) => Ok(RpcOperations::ThemeChanged(ThemeChanged { name, theme })),
            Err(e) => Err(e),
        };
    }
    let pat = m_alert();
    if bytes_eq(&method, pat.as_slice()) {
        return match decode_str_field(params, n_msg()) {
            Ok(msg) => Ok(RpcOperations::Alert(Alert { msg })),
            Err(e) => Err(e),
        };
    }
    let pat = m_available_themes();
    if bytes_eq(&method, pat.as_slice()) {
        return match decode_str_list(params, n_themes()) {
            Ok(themes) => Ok(RpcOperations::AvailableThemes(AvailableThemes { themes })),
            Err(e) => Err(e),
        };
    }
    let pat = m_find_status();
    if bytes_eq(&method, pat.as_slice()) {
        return match decode_str_json(params, n_view_id(), n_queries()) {
            Ok((view_id, queries)) => Ok(
                RpcOperations::FindStatus(FindStatus { view_id, queries }),
            ),
            Err(e) => Err(e),
        };
    }
    let pat = m_replace_status();
    if bytes_eq(&method, pat.as_slice()) {
        return match decode_str_json(params, n_view_id(), n_status()) {
            Ok((view_id, status)) => Ok(
                RpcOperations::ReplaceStatus(ReplaceStatus { view_id, status }),
            ),
            Err(e) => Err(e),
        };
    }
    let pat = m_available_languages();
    if bytes_eq(&method, pat.as_slice()) {
        return match decode_str_list(params, n_languages()) {
            Ok(languages) => Ok(
                RpcOperations::AvailableLanguages(AvailableLanguages { languages }),
            ),
            Err(e) => Err(e),
        };
    }
    let pat = m_language_changed();
    if bytes_eq(&method, pat.as_slice()) {
        return match decode_str_str(params, n_view_id(), n_language_id()) {
            Ok((view_id, language_id)) => Ok(
                RpcOperations::LanguageChanged(LanguageChanged { view_id, language_id }),
            ),
            Err(e) => Err(e),
        };
    }
    Err(RouteError::UnknownMethod(method))
}

} // verus!
