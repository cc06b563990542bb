//! What the tray shows: the status label and tooltip, the status icon's
//! pixels, the menu's contents, and which command a menu item stands for.

use vstd::prelude::*;
use crate::args::{bare_name, ends_in_name, file_name_fits, file_name_of, file_stem_chars, has_extension, is_suffix, lemma_named_path, opt_text, spec_file_stem};
use crate::args::views;
use crate::config::{AppConfig, Profile};
use crate::models::ModelEntry;
use crate::server::{is_live, phase_is_live, ServerPhase, ServerStatus};
use crate::text::{chars_of, chars_lt, eq_lit, has_prefix, push_all, push_lit, seq_lt, seq_lt_strict_total, starts_with_lit, string_of, sub_chars};

verus! {

broadcast use vstd::string::group_string_axioms;

/// The status line for a phase.
pub open spec fn spec_phase_label(p: ServerPhase) -> Seq<char> {
    match p {
        ServerPhase::Stopped => "Server: stopped"@,
        ServerPhase::Starting => "Server: starting…"@,
        ServerPhase::RunningEmpty => "Server: running (no model)"@,
        ServerPhase::RunningLoaded => "Server: running"@,
        ServerPhase::Error => "Server: error"@,
    }
}

/// The status line for a phase.
pub fn phase_label(phase: ServerPhase) -> (r: &'static str)
    ensures
        r@ == spec_phase_label(phase),
{
    match phase {
        ServerPhase::Stopped => "Server: stopped",
        ServerPhase::Starting => "Server: starting…",
        ServerPhase::RunningEmpty => "Server: running (no model)",
        ServerPhase::RunningLoaded => "Server: running",
        ServerPhase::Error => "Server: error",
    }
}

/// The tray tooltip: the status line, then the loaded model's name (the
/// stem of `model_file_name`, the file name of its path, or else the path
/// itself) and the server URL, each on a line of its own when known.
pub open spec fn spec_tooltip(status: ServerStatus, model_file_name: Option<Seq<char>>) -> Seq<char> {
    let base = spec_phase_label(status.phase);
    match (status.loaded_model, status.url) {
        (Some(m), Some(u)) => base + "\n"@ + match model_file_name {
            Some(n) => spec_file_stem(n),
            None => m@,
        } + "\n"@ + u@,
        (None, Some(u)) => base + "\n"@ + u@,
        _ => base,
    }
}

/// The tray tooltip, given the file name of the loaded model's path.
pub fn tooltip_with(status: &ServerStatus, model_file_name: Option<&str>) -> (r: String)
    ensures
        r@ == spec_tooltip(*status, opt_text(model_file_name)),
{
    let mut t = chars_of(phase_label(status.phase));
    match (&status.loaded_model, &status.url) {
        (Some(m), Some(u)) => {
            push_lit(&mut t, "\n");
            match model_file_name {
                Some(n) => {
                    let nv = chars_of(n);
                    let stem = file_stem_chars(&nv);
                    push_all(&mut t, &stem);
                },
                None => {
                    let mv = chars_of(m.as_str());
                    push_all(&mut t, &mv);
                },
            }
            push_lit(&mut t, "\n");
            let uv = chars_of(u.as_str());
            push_all(&mut t, &uv);
        },
        (None, Some(u)) => {
            push_lit(&mut t, "\n");
            let uv = chars_of(u.as_str());
            push_all(&mut t, &uv);
        },
        _ => {},
    }
    string_of(&t)
}

/// Whether `r` is the tooltip for `status` for a file name that fits the
/// loaded model's path.
pub open spec fn tooltip_fits(status: ServerStatus, r: Seq<char>) -> bool {
    exists|n: Option<Seq<char>>|
        (status.loaded_model matches Some(m) ==> file_name_fits(m@, n)) && r == #[trigger] spec_tooltip(
            status,
            n,
        )
}

/// With a model loaded from a path that ends in a separator and a bare file
/// name `n` (and does not start with two separators), and a known URL, the
/// tooltip is the status line, the stem of the path's file name (a suffix
/// of the path that ends in `n`) and the URL. When `n` has an extension,
/// that middle line ends in the stem of `n` and is shorter than the path:
/// the whole path is never shown then.
pub proof fn tooltip_names_model_file(status: ServerStatus, r: Seq<char>, n: Seq<char>)
    requires
        tooltip_fits(status, r),
        status.loaded_model matches Some(m) && ends_in_name(m@, n),
        status.url is Some,
    ensures
        exists|f: Seq<char>|
            is_suffix(f, status.loaded_model->0@) && is_suffix(n, f) && r == spec_phase_label(status.phase)
                + "\n"@ + #[trigger] spec_file_stem(f) + "\n"@ + status.url->0@,
        has_extension(n) ==> exists|line: Seq<char>|
            r == spec_phase_label(status.phase) + "\n"@ + line + "\n"@ + status.url->0@ && is_suffix(
                spec_file_stem(n),
                line,
            ) && #[trigger] line.len() < status.loaded_model->0@.len(),
{
    let m = status.loaded_model->0;
    let nm = choose|nm: Option<Seq<char>>|
        (status.loaded_model matches Some(m) ==> file_name_fits(m@, nm)) && r == #[trigger] spec_tooltip(
            status,
            nm,
        );
    lemma_named_path(m@, nm, n);
    let f = nm->0;
    assert(r == spec_phase_label(status.phase) + "\n"@ + spec_file_stem(f) + "\n"@ + status.url->0@);
    if has_extension(n) {
        assert(spec_file_stem(f).len() < m@.len());
    }
}

/// The tray tooltip for `status`, naming the loaded model by the stem of
/// its path's file name.
pub fn tooltip(status: &ServerStatus) -> (r: String)
    ensures
        tooltip_fits(*status, r@),
        status.loaded_model matches Some(m) ==> (bare_name(m@) && status.url is Some ==> r@
            == spec_tooltip(*status, Some(m@))),
{
    let name = match &status.loaded_model {
        Some(m) => file_name_of(m.as_str()),
        None => None,
    };
    tooltip_with(status, name)
}

/// The colour of the status icon for a phase: grey when stopped, yellow
/// when starting, green when running, red on error.
pub open spec fn phase_rgb(p: ServerPhase) -> (u8, u8, u8) {
    match p {
        ServerPhase::Stopped => (120, 120, 120),
        ServerPhase::Starting => (220, 180, 40),
        ServerPhase::RunningEmpty | ServerPhase::RunningLoaded => (40, 180, 80),
        ServerPhase::Error => (200, 50, 50),
    }
}

/// Four times the squared distance of pixel `(x, y)` of the 16×16 icon from
/// the icon's centre `(7.5, 7.5)`.
pub open spec fn dist4(x: int, y: int) -> int {
    (2 * x - 15) * (2 * x - 15) + (2 * y - 15) * (2 * y - 15)
}

/// The RGBA value of pixel `(x, y)`: opaque within distance 6 of the
/// centre, half transparent within distance 7, and clear outside.
pub open spec fn icon_pixel(p: ServerPhase, x: int, y: int) -> Seq<u8> {
    let (r, g, b) = phase_rgb(p);
    if dist4(x, y) <= 144 {
        seq![r, g, b, 255u8]
    } else if dist4(x, y) <= 196 {
        seq![r, g, b, 120u8]
    } else {
        seq![0u8, 0u8, 0u8, 0u8]
    }
}

/// The 16×16 status icon, row by row, four bytes (RGBA) per pixel: a disc
/// of radius 6 in the phase's colour with a half-transparent rim out to
/// radius 7. Distances are compared squared and doubled, in integers: the
/// squared distances of pixel centres are half-integers, so this is the
/// same test as comparing the square root with 6 and 7.
pub fn status_icon_rgba(phase: ServerPhase) -> (r: Vec<u8>)
    ensures
        r@.len() == 1024,
        forall|p: int|
            0 <= p < 256 ==> #[trigger] r@.subrange(4 * p, 4 * p + 4) == icon_pixel(phase, p % 16, p / 16),
{
    let (cr, cg, cb): (u8, u8, u8) = match phase {
        ServerPhase::Stopped => (120, 120, 120),
        ServerPhase::Starting => (220, 180, 40),
        ServerPhase::RunningEmpty | ServerPhase::RunningLoaded => (40, 180, 80),
        ServerPhase::Error => (200, 50, 50),
    };
    let mut v: Vec<u8> = Vec::new();
    let mut p: u32 = 0;
    while p < 256
        invariant
            p <= 256,
            (cr, cg, cb) == phase_rgb(phase),
            v@.len() == 4 * p,
            forall|q: int|
                0 <= q < p ==> #[trigger] v@.subrange(4 * q, 4 * q + 4) == icon_pixel(phase, q % 16, q / 16),
        decreases 256 - p,
    {
        let x: i32 = (p % 16) as i32;
        let y: i32 = (p / 16) as i32;
        let dx: i32 = 2 * x - 15;
        let dy: i32 = 2 * y - 15;
        assert(dx * dx <= 225) by (nonlinear_arith)
            requires
                -15 <= dx <= 15,
        ;
        assert(dy * dy <= 225) by (nonlinear_arith)
            requires
                -15 <= dy <= 15,
        ;
        assert(dx * dx >= 0) by (nonlinear_arith);
        assert(dy * dy >= 0) by (nonlinear_arith);
        let d: i32 = dx * dx + dy * dy;
        assert(d == dist4(p as int % 16, p as int / 16));
        let ghost before = v@;
        if d <= 144 {
            v.push(cr);
            v.push(cg);
            v.push(cb);
            v.push(255);
        } else if d <= 196 {
            v.push(cr);
            v.push(cg);
            v.push(cb);
            v.push(120);
        } else {
            v.push(0);
            v.push(0);
            v.push(0);
            v.push(0);
        }
        assert forall|q: int| 0 <= q < p + 1 implies #[trigger] v@.subrange(4 * q, 4 * q + 4) == icon_pixel(
            phase,
            q % 16,
            q / 16,
        ) by {
            if q < p {
                assert(v@.subrange(4 * q, 4 * q + 4) =~= before.subrange(4 * q, 4 * q + 4));
            } else {
                assert(v@.subrange(4 * q, 4 * q + 4) =~= icon_pixel(phase, q % 16, q / 16));
            }
        }
        p = p + 1;
    }
    v
}

/// What a tray menu item asks for.
#[derive(Clone, Debug)]
pub enum MenuCommand {
    Start,
    Stop,
    Load,
    Unload,
    Settings,
    Quit,
    /// Choose the model at this path.
    SelectModel(String),
    /// Make the profile with this id active.
    SelectProfile(String),
    /// An item that asks for nothing.
    Ignore,
}

/// Whether `c` is the command of the menu item with id `id`.
pub open spec fn is_menu_command(id: Seq<char>, c: MenuCommand) -> bool {
    if id == "start"@ {
        c is Start
    } else if id == "stop"@ {
        c is Stop
    } else if id == "load"@ {
        c is Load
    } else if id == "unload"@ {
        c is Unload
    } else if id == "settings"@ {
        c is Settings
    } else if id == "quit"@ {
        c is Quit
    } else if has_prefix(id, "model:"@) {
        c matches MenuCommand::SelectModel(path) && path@ == id.skip("model:"@.len() as int)
    } else if has_prefix(id, "profile:"@) {
        c matches MenuCommand::SelectProfile(pid) && pid@ == id.skip("profile:"@.len() as int)
    } else {
        c is Ignore
    }
}

/// The menu item of a model, whose id is `model:` followed by its path,
/// selects that model.
pub proof fn model_item_selects_model(path: Seq<char>, c: MenuCommand)
    requires
        is_menu_command("model:"@ + path, c),
    ensures
        c matches MenuCommand::SelectModel(p) && p@ == path,
{
    reveal_strlit("model:");
    reveal_strlit("start");
    reveal_strlit("stop");
    reveal_strlit("load");
    reveal_strlit("unload");
    reveal_strlit("settings");
    reveal_strlit("quit");
    let id = "model:"@ + path;
    assert(id[0] == 'm');
    assert(id.take(6) =~= "model:"@);
    assert(id.skip(6) =~= path);
}

/// The menu item of a profile, whose id is `profile:` followed by the
/// profile's id, makes that profile active.
pub proof fn profile_item_selects_profile(pid: Seq<char>, c: MenuCommand)
    requires
        is_menu_command("profile:"@ + pid, c),
    ensures
        c matches MenuCommand::SelectProfile(p) && p@ == pid,
{
    reveal_strlit("profile:");
    reveal_strlit("model:");
    reveal_strlit("start");
    reveal_strlit("stop");
    reveal_strlit("load");
    reveal_strlit("unload");
    reveal_strlit("settings");
    reveal_strlit("quit");
    let id = "profile:"@ + pid;
    assert(id[0] == 'p');
    assert(!has_prefix(id, "model:"@)) by {
        if has_prefix(id, "model:"@) {
            assert(id.take(6)[0] == 'm');
        }
    }
    assert(id.take(8) =~= "profile:"@);
    assert(id.skip(8) =~= pid);
}

fn rest_after(v: &Vec<char>, prefix: &str) -> (r: String)
    requires
        has_prefix(v@, prefix@),
    ensures
        r@ == v@.skip(prefix@.len() as int),
{
    let p = chars_of(prefix);
    let rest = sub_chars(v, p.len(), v.len());
    assert(rest@ =~= v@.skip(prefix@.len() as int));
    string_of(&rest)
}

/// The command of the tray menu item with id `id`.
pub fn menu_command(id: &str) -> (r: MenuCommand)
    ensures
        is_menu_command(id@, r),
{
    let v = chars_of(id);
    if eq_lit(&v, "start") {
        MenuCommand::Start
    } else if eq_lit(&v, "stop") {
        MenuCommand::Stop
    } else if eq_lit(&v, "load") {
        MenuCommand::Load
    } else if eq_lit(&v, "unload") {
        MenuCommand::Unload
    } else if eq_lit(&v, "settings") {
        MenuCommand::Settings
    } else if eq_lit(&v, "quit") {
        MenuCommand::Quit
    } else if starts_with_lit(&v, "model:") {
        MenuCommand::SelectModel(rest_after(&v, "model:"))
    } else if starts_with_lit(&v, "profile:") {
        MenuCommand::SelectProfile(rest_after(&v, "profile:"))
    } else {
        MenuCommand::Ignore
    }
}


/// A checkable item of the tray menu.
#[derive(Clone, Debug)]
pub struct CheckItem {
    pub id: String,
    pub label: String,
    pub checked: bool,
}

/// A submenu of the models of one group.
#[derive(Clone, Debug)]
pub struct ModelGroupMenu {
    pub name: String,
    pub items: Vec<CheckItem>,
}

/// The model submenu.
#[derive(Clone, Debug)]
pub enum ModelMenu {
    /// There are no models.
    Empty,
    /// All models are at the top of the models directory: one flat list.
    Flat(Vec<CheckItem>),
    /// One submenu per group, groups in ascending order.
    Grouped(Vec<ModelGroupMenu>),
}

/// The contents of the tray menu.
#[derive(Clone, Debug)]
pub struct TrayMenu {
    pub status_label: String,
    pub can_start: bool,
    pub can_stop: bool,
    pub can_load: bool,
    pub can_unload: bool,
    pub models: ModelMenu,
    pub profiles: Vec<CheckItem>,
}

/// Whether `path` is the selected model.
pub open spec fn is_active_model(active: Option<String>, path: Seq<char>) -> bool {
    active matches Some(a) && a@ == path
}

/// Whether `it` is the item for model `m` with label `label`.
pub open spec fn model_item_is(it: CheckItem, m: ModelEntry, label: Seq<char>, active: Option<String>) -> bool {
    &&& it.id@ == "model:"@ + m.path@
    &&& it.label@ == label
    &&& it.checked == is_active_model(active, m.path@)
}

/// The models of `ms` in group `g`, in order.
pub open spec fn in_group(ms: Seq<ModelEntry>, g: Seq<char>) -> Seq<ModelEntry>
    decreases ms.len(),
{
    if ms.len() == 0 {
        seq![]
    } else if ms.last().group@ == g {
        in_group(ms.drop_last(), g).push(ms.last())
    } else {
        in_group(ms.drop_last(), g)
    }
}

/// Whether some model of `ms` is in group `g`.
pub open spec fn has_group(ms: Seq<ModelEntry>, g: Seq<char>) -> bool {
    exists|i: int| 0 <= i < ms.len() && (#[trigger] ms[i]).group@ == g
}

/// `names` are the groups of `ms`, each once, in ascending order.
pub open spec fn group_names_ok(ms: Seq<ModelEntry>, names: Seq<Seq<char>>) -> bool {
    &&& forall|i: int, j: int| 0 <= i < j < names.len() ==> seq_lt(#[trigger] names[i], #[trigger] names[j])
    &&& forall|g: Seq<char>| #[trigger] names.contains(g) <==> has_group(ms, g)
}

/// The label of model `m` in the submenu of group `g`: its name at the top
/// level, and otherwise its relative path without the group's directory.
pub open spec fn grouped_label(m: ModelEntry, g: Seq<char>) -> Seq<char> {
    if g == "(root)"@ {
        m.name@
    } else if has_prefix(m.relative_path@, g + "/"@) {
        m.relative_path@.skip(g.len() + 1 as int)
    } else {
        m.relative_path@
    }
}

/// Whether every model is at the top of the models directory.
pub open spec fn all_root(ms: Seq<ModelEntry>) -> bool {
    forall|i: int| 0 <= i < ms.len() ==> (#[trigger] ms[i]).group@ == "(root)"@
}

/// `items` are the items of the models `ms` of group `g`.
pub open spec fn group_items_ok(items: Seq<CheckItem>, ms: Seq<ModelEntry>, g: Seq<char>, active: Option<String>) -> bool {
    &&& items.len() == ms.len()
    &&& forall|i: int| 0 <= i < ms.len() ==> model_item_is(#[trigger] items[i], ms[i], grouped_label(ms[i], g), active)
}

/// The names of the group submenus.
pub open spec fn group_menu_names(gs: Seq<ModelGroupMenu>) -> Seq<Seq<char>> {
    gs.map_values(|g: ModelGroupMenu| g.name@)
}

/// Whether `mm` is the model submenu for models `ms` with `active` selected.
pub open spec fn model_menu_ok(ms: Seq<ModelEntry>, active: Option<String>, mm: ModelMenu) -> bool {
    match mm {
        ModelMenu::Empty => ms.len() == 0,
        ModelMenu::Flat(items) => {
            &&& ms.len() > 0
            &&& all_root(ms)
            &&& items@.len() == ms.len()
            &&& forall|i: int| 0 <= i < ms.len() ==> model_item_is(#[trigger] items@[i], ms[i], ms[i].name@, active)
        },
        ModelMenu::Grouped(gs) => {
            &&& ms.len() > 0
            &&& !all_root(ms)
            &&& group_names_ok(ms, group_menu_names(gs@))
            &&& forall|k: int| 0 <= k < gs@.len() ==> group_items_ok(
                (#[trigger] gs@[k]).items@,
                in_group(ms, gs@[k].name@),
                gs@[k].name@,
                active,
            )
        },
    }
}

/// Whether `it` is the item for profile `p` when `active` is the active id.
pub open spec fn profile_item_is(it: CheckItem, p: Profile, active: Seq<char>) -> bool {
    &&& it.id@ == "profile:"@ + p.id@
    &&& it.label@ == p.name@
    &&& it.checked == (p.id@ == active)
}

/// A profile item is checked exactly when its profile's id is the active
/// id; so when the profiles' ids are distinct, at most one item is checked.
pub proof fn profile_items_check_active(items: Seq<CheckItem>, ps: Seq<Profile>, active: Seq<char>)
    requires
        items.len() == ps.len(),
        forall|i: int| 0 <= i < ps.len() ==> profile_item_is(#[trigger] items[i], ps[i], active),
    ensures
        forall|i: int| 0 <= i < ps.len() ==> (#[trigger] items[i].checked <==> ps[i].id@ == active),
        (forall|i: int, j: int| 0 <= i < j < ps.len() ==> #[trigger] ps[i].id@ != #[trigger] ps[j].id@)
            ==> forall|i: int, j: int|
            0 <= i < j < items.len() && #[trigger] items[i].checked ==> !#[trigger] items[j].checked,
{
    assert forall|i: int| 0 <= i < ps.len() implies (#[trigger] items[i].checked <==> ps[i].id@ == active) by {
        assert(profile_item_is(items[i], ps[i], active));
    }
    if forall|i: int, j: int| 0 <= i < j < ps.len() ==> #[trigger] ps[i].id@ != #[trigger] ps[j].id@ {
        assert forall|i: int, j: int| 0 <= i < j < items.len() && #[trigger] items[i].checked implies !#[trigger] items[j].checked by {
            assert(profile_item_is(items[i], ps[i], active));
            assert(profile_item_is(items[j], ps[j], active));
        }
    }
}

/// A model item is checked exactly when its model's path is the selected
/// model's path, in the flat list and in every group's submenu alike.
pub proof fn model_items_check_selected(ms: Seq<ModelEntry>, active: Option<String>, mm: ModelMenu)
    requires
        model_menu_ok(ms, active, mm),
    ensures
        mm matches ModelMenu::Flat(items) ==> forall|i: int|
            0 <= i < items@.len() ==> (#[trigger] items@[i].checked <==> (active matches Some(a) && a@
                == ms[i].path@)),
        mm matches ModelMenu::Grouped(gs) ==> forall|k: int, i: int|
            0 <= k < gs@.len() && 0 <= i < (#[trigger] gs@[k]).items@.len() ==> (
            #[trigger] gs@[k].items@[i].checked <==> (active matches Some(a) && a@ == in_group(
                ms,
                gs@[k].name@,
            )[i].path@)),
{
    match mm {
        ModelMenu::Flat(items) => {
            assert forall|i: int| 0 <= i < items@.len() implies (#[trigger] items@[i].checked <==> (
            active matches Some(a) && a@ == ms[i].path@)) by {
                assert(model_item_is(items@[i], ms[i], ms[i].name@, active));
            }
        },
        ModelMenu::Grouped(gs) => {
            assert forall|k: int, i: int|
                0 <= k < gs@.len() && 0 <= i < (#[trigger] gs@[k]).items@.len() implies (
            #[trigger] gs@[k].items@[i].checked <==> (active matches Some(a) && a@ == in_group(
                ms,
                gs@[k].name@,
            )[i].path@)) by {
                let g = gs@[k];
                assert(group_items_ok(g.items@, in_group(ms, g.name@), g.name@, active));
                let sub = in_group(ms, g.name@);
                assert(model_item_is(g.items@[i], sub[i], grouped_label(sub[i], g.name@), active));
            }
        },
        ModelMenu::Empty => {},
    }
}

fn model_item(m: &ModelEntry, label: String, active: &Option<String>) -> (r: CheckItem)
    ensures
        model_item_is(r, *m, label@, *active),
{
    let mut id = chars_of("model:");
    let pv = chars_of(m.path.as_str());
    push_all(&mut id, &pv);
    let checked = match active {
        Some(a) => *a == m.path,
        None => false,
    };
    CheckItem { id: string_of(&id), label, checked }
}

fn group_label(m: &ModelEntry, g: &String) -> (r: String)
    ensures
        r@ == grouped_label(*m, g@),
{
    let gv = chars_of(g.as_str());
    if eq_lit(&gv, "(root)") {
        return m.name.clone();
    }
    let mut prefix = gv;
    prefix.push('/');
    assert(prefix@ =~= g@ + "/"@) by {
        reveal_strlit("/");
    }
    let rel = chars_of(m.relative_path.as_str());
    if prefix.len() <= rel.len() {
        let mut i: usize = 0;
        while i < prefix.len()
            invariant
                prefix@ == g@ + "/"@,
                rel@ == m.relative_path@,
                g@ != "(root)"@,
                prefix.len() <= rel.len(),
                i <= prefix.len(),
                rel@.take(i as int) == prefix@.take(i as int),
            decreases prefix.len() - i,
        {
            if rel[i] != prefix[i] {
                assert(rel@.take(prefix.len() as int)[i as int] != prefix@[i as int]);
                return m.relative_path.clone();
            }
            assert(rel@.take(i + 1) =~= rel@.take(i as int).push(rel@[i as int]));
            assert(prefix@.take(i + 1) =~= prefix@.take(i as int).push(prefix@[i as int]));
            i = i + 1;
        }
        assert(prefix@ =~= prefix@.take(prefix.len() as int));
        let rest = sub_chars(&rel, prefix.len(), rel.len());
        assert(rest@ =~= rel@.skip(g@.len() + 1 as int));
        string_of(&rest)
    } else {
        m.relative_path.clone()
    }
}

proof fn lemma_has_group_push(ms: Seq<ModelEntry>, m: ModelEntry, g: Seq<char>)
    ensures
        has_group(ms.push(m), g) <==> has_group(ms, g) || m.group@ == g,
{
    let ms2 = ms.push(m);
    if has_group(ms, g) {
        let i = choose|i: int| 0 <= i < ms.len() && (#[trigger] ms[i]).group@ == g;
        assert(ms2[i] == ms[i]);
    }
    if m.group@ == g {
        assert(ms2[ms.len() as int] == m);
    }
    if has_group(ms2, g) {
        let i = choose|i: int| 0 <= i < ms2.len() && (#[trigger] ms2[i]).group@ == g;
        if i < ms.len() {
            assert(ms2[i] == ms[i]);
        }
    }
}

fn name_before(names: &Vec<String>, pos: usize, g: &Vec<char>) -> (r: bool)
    ensures
        r == (pos < names@.len() && seq_lt(names@[pos as int]@, g@)),
{
    if pos < names.len() {
        let nv = chars_of(names[pos].as_str());
        chars_lt(&nv, g)
    } else {
        false
    }
}

/// The groups of the models, each once, in ascending order.
fn group_names(models: &Vec<ModelEntry>) -> (names: Vec<String>)
    ensures
        group_names_ok(models@, views(names@)),
{
    let mut names: Vec<String> = Vec::new();
    let mut i: usize = 0;
    assert(views(names@) =~= Seq::<Seq<char>>::empty());
    while i < models.len()
        invariant
            i <= models.len(),
            group_names_ok(models@.take(i as int), views(names@)),
        decreases models.len() - i,
    {
        let g = &models[i].group;
        let gv = chars_of(g.as_str());
        let ghost ns = views(names@);
        let mut pos: usize = 0;
        while name_before(&names, pos, &gv)
            invariant
                pos <= names.len(),
                ns == views(names@),
                gv@ == g@,
                forall|k: int| 0 <= k < pos ==> seq_lt(#[trigger] ns[k], g@),
            decreases names.len() - pos,
        {
            pos = pos + 1;
        }
        proof {
            lemma_has_group_push(models@.take(i as int), models@[i as int], g@);
            assert(models@.take(i + 1) =~= models@.take(i as int).push(models@[i as int]));
        }
        if pos < names.len() && names[pos] == *g {
            proof {
                assert(ns.contains(g@)) by {
                    assert(ns[pos as int] == g@);
                }
            }
        } else {
            let ghost old_ns = ns;
            names.insert(pos, g.clone());
            proof {
                let nn = views(names@);
                assert(nn =~= old_ns.insert(pos as int, g@));
                if pos < old_ns.len() {
                    assert(!seq_lt(old_ns[pos as int], g@));
                    assert(old_ns[pos as int] != g@);
                    seq_lt_strict_total(old_ns[pos as int], g@, g@);
                }
                assert forall|a: int, b: int| 0 <= a < b < nn.len() implies seq_lt(
                    #[trigger] nn[a],
                    #[trigger] nn[b],
                ) by {
                    if b < pos {
                    } else if b == pos {
                        assert(nn[a] == old_ns[a]);
                    } else if a < pos {
                        assert(nn[a] == old_ns[a] && nn[b] == old_ns[b - 1]);
                        seq_lt_strict_total(old_ns[a], old_ns[pos as int], old_ns[b - 1]);
                        if b - 1 > pos {
                            seq_lt_strict_total(old_ns[a], g@, old_ns[pos as int]);
                            seq_lt_strict_total(g@, old_ns[pos as int], old_ns[b - 1]);
                        }
                    } else if a == pos {
                        assert(nn[b] == old_ns[b - 1]);
                        if b - 1 > pos {
                            seq_lt_strict_total(g@, old_ns[pos as int], old_ns[b - 1]);
                        }
                    } else {
                        assert(nn[a] == old_ns[a - 1] && nn[b] == old_ns[b - 1]);
                    }
                }
                assert forall|x: Seq<char>| #[trigger] nn.contains(x) <==> (old_ns.contains(x) || x
                    == g@) by {
                    if nn.contains(x) {
                        let k = choose|k: int| 0 <= k < nn.len() && nn[k] == x;
                        if k < pos {
                            assert(old_ns[k] == x);
                        } else if k > pos {
                            assert(old_ns[k - 1] == x);
                        }
                    }
                    if old_ns.contains(x) {
                        let k = choose|k: int| 0 <= k < old_ns.len() && old_ns[k] == x;
                        if k < pos {
                            assert(nn[k] == x);
                        } else {
                            assert(nn[k + 1] == x);
                        }
                    }
                    if x == g@ {
                        assert(nn[pos as int] == x);
                    }
                }
            }
        }
        i = i + 1;
    }
    assert(models@.take(models.len() as int) =~= models@);
    names
}

/// The items of the models of group `g`, in order.
fn group_items(models: &Vec<ModelEntry>, g: &String, active: &Option<String>) -> (r: Vec<CheckItem>)
    ensures
        group_items_ok(r@, in_group(models@, g@), g@, *active),
{
    let mut items: Vec<CheckItem> = Vec::new();
    let mut j: usize = 0;
    assert(models@.take(0) =~= Seq::<ModelEntry>::empty());
    while j < models.len()
        invariant
            j <= models.len(),
            group_items_ok(items@, in_group(models@.take(j as int), g@), g@, *active),
        decreases models.len() - j,
    {
        let m = &models[j];
        assert(models@.take(j + 1).drop_last() =~= models@.take(j as int));
        assert(models@.take(j + 1).last() == models@[j as int]);
        if m.group == *g {
            let label = group_label(m, g);
            items.push(model_item(m, label, active));
        }
        j = j + 1;
    }
    assert(models@.take(models.len() as int) =~= models@);
    items
}

/// The contents of the tray menu for the given settings, models and
/// status.
pub fn build_menu(config: &AppConfig, models: &Vec<ModelEntry>, status: &ServerStatus) -> (r: TrayMenu)
    ensures
        r.status_label@ == spec_phase_label(status.phase),
        r.can_start == (status.phase == ServerPhase::Stopped || status.phase == ServerPhase::Error),
        r.can_stop == is_live(status.phase),
        r.can_load == (is_live(status.phase) && config.active_model_path is Some && status.phase
            != ServerPhase::Starting),
        r.can_unload == (status.phase == ServerPhase::RunningLoaded),
        model_menu_ok(models@, config.active_model_path, r.models),
        r.profiles@.len() == config.profiles@.len(),
        forall|i: int|
            0 <= i < config.profiles@.len() ==> profile_item_is(
                #[trigger] r.profiles@[i],
                config.profiles@[i],
                config.active_profile_id@,
            ),
        forall|i: int|
            0 <= i < config.profiles@.len() ==> (#[trigger] r.profiles@[i].checked
                <==> config.profiles@[i].id@ == config.active_profile_id@),
{
    let phase = status.phase;
    let can_start = phase == ServerPhase::Stopped || phase == ServerPhase::Error;
    let can_stop = phase_is_live(phase);
    let can_load = can_stop && config.active_model_path.is_some() && phase != ServerPhase::Starting;
    let can_unload = phase == ServerPhase::RunningLoaded;
    let active = &config.active_model_path;
    let model_menu = if models.len() == 0 {
        ModelMenu::Empty
    } else {
        let names = group_names(models);
        let ghost ns = views(names@);
        let root_only = names.len() == 1 && {
            let n0 = chars_of(names[0].as_str());
            eq_lit(&n0, "(root)")
        };
        proof {
            if root_only {
                assert forall|i: int| 0 <= i < models@.len() implies (#[trigger] models@[i]).group@
                    == "(root)"@ by {
                    assert(has_group(models@, models@[i].group@));
                    assert(ns.contains(models@[i].group@));
                }
            } else {
                if all_root(models@) {
                    assert(has_group(models@, models@[0].group@));
                    assert(ns.contains("(root)"@));
                    assert(ns.len() > 0);
                    if ns.len() == 1 {
                        assert(ns[0] == "(root)"@);
                    } else {
                        assert(ns.contains(ns[1]));
                        assert(has_group(models@, ns[1]));
                        assert(ns.contains(ns[0]));
                        assert(has_group(models@, ns[0]));
                        assert(ns[0] == "(root)"@ && ns[1] == "(root)"@);
                        seq_lt_strict_total(ns[0], ns[0], ns[0]);
                    }
                }
            }
        }
        if root_only {
            let mut items: Vec<CheckItem> = Vec::new();
            let mut i: usize = 0;
            while i < models.len()
                invariant
                    i <= models.len(),
                    items@.len() == i,
                    forall|k: int| 0 <= k < i ==> model_item_is(#[trigger] items@[k], models@[k], models@[k].name@, *active),
                decreases models.len() - i,
            {
                let m = &models[i];
                items.push(model_item(m, m.name.clone(), active));
                i = i + 1;
            }
            ModelMenu::Flat(items)
        } else {
            let mut groups: Vec<ModelGroupMenu> = Vec::new();
            let mut k: usize = 0;
            while k < names.len()
                invariant
                    k <= names.len(),
                    ns == views(names@),
                    groups@.len() == k,
                    forall|q: int| 0 <= q < k ==> (#[trigger] groups@[q]).name@ == ns[q],
                    forall|q: int| 0 <= q < k ==> group_items_ok(
                        (#[trigger] groups@[q]).items@,
                        in_group(models@, groups@[q].name@),
                        groups@[q].name@,
                        *active,
                    ),
                decreases names.len() - k,
            {
                let items = group_items(models, &names[k], active);
                groups.push(ModelGroupMenu { name: names[k].clone(), items });
                k = k + 1;
            }
            assert(group_menu_names(groups@) =~= ns);
            ModelMenu::Grouped(groups)
        }
    };
    let mut profiles: Vec<CheckItem> = Vec::new();
    let mut i: usize = 0;
    while i < config.profiles.len()
        invariant
            i <= config.profiles.len(),
            profiles@.len() == i,
            forall|q: int|
                0 <= q < i ==> profile_item_is(#[trigger] profiles@[q], config.profiles@[q], config.active_profile_id@),
        decreases config.profiles.len() - i,
    {
        let p = &config.profiles[i];
        let mut id = chars_of("profile:");
        let iv = chars_of(p.id.as_str());
        push_all(&mut id, &iv);
        profiles.push(
            CheckItem {
                id: string_of(&id),
                label: p.name.clone(),
                checked: p.id == config.active_profile_id,
            },
        );
        i = i + 1;
    }
    TrayMenu {
        status_label: phase_label(phase).to_string(),
        can_start,
        can_stop,
        can_load,
        can_unload,
        models: model_menu,
        profiles,
    }
}

} // verus!
