//! Manifests (`_manifest.ymf`): which type files each map depends on, HD
//! texture bindings, interiors and timed groups of maps.
use vstd::prelude::*;
use vstd::string::*;
use crate::commands::resource::checks::Checks;
use crate::json_text::{array, array_of, json_hash_name, json_name, quote, quoted};
use crate::name_table::{resolve, resolved, table};
use crate::text::{
    bool_of, bool_text, decimal, decimal_of, hex_upper, hex_upper_short, join, join_with, texts,
    unlines,
};
use crate::writer::{unlines_of, write_each, written, Writes};
use rage_formats::NameTable;

verus! {

// ── What a manifest holds ───────────────────────────────────────────────────

/// A name that may have arrived as text or only as its hash.
#[derive(Debug, Clone, PartialEq, Eq)]
pub struct HashName {
    pub hash: u32,
    pub name: Option<String>,
}

/// A named set of map files switched by weather or hour.
#[derive(Debug, Clone, PartialEq, Eq)]
pub struct MapDataGroup {
    pub name: HashName,
    pub bounds: Vec<HashName>,
    pub weather_types: Vec<HashName>,
    pub flags: u32,
    pub hours_on_off: u32,
}

/// A map and the one type file it needs, in the older form.
#[derive(Debug, Clone, PartialEq, Eq)]
pub struct ImapDependency {
    pub imap: HashName,
    pub ityp: HashName,
    pub pack_file: HashName,
}

/// A map or type file and the type files it needs loaded first.
#[derive(Debug, Clone, PartialEq, Eq)]
pub struct Dependencies {
    pub name: HashName,
    pub manifest_flags: u32,
    pub ityp_deps: Vec<HashName>,
}

/// The HD texture dictionary to swap in for an asset.
#[derive(Debug, Clone, PartialEq, Eq)]
pub struct HdTxdBinding {
    pub asset_type: HashName,
    pub target_asset: String,
    pub hd_txd: String,
}

/// An interior and its collision files.
#[derive(Debug, Clone, PartialEq, Eq)]
pub struct InteriorBounds {
    pub name: HashName,
    pub bounds: Vec<HashName>,
}

/// The contents of a manifest.
#[derive(Debug, Clone, PartialEq, Eq)]
pub struct Manifest {
    pub map_data_groups: Vec<MapDataGroup>,
    pub imap_dependencies: Vec<ImapDependency>,
    pub imap_dependencies_2: Vec<Dependencies>,
    pub ityp_dependencies_2: Vec<Dependencies>,
    pub hd_txd_bindings: Vec<HdTxdBinding>,
    pub interiors: Vec<InteriorBounds>,
}

// ── Views ───────────────────────────────────────────────────────────────────

/// What a `HashName` holds.
pub struct HashNameView {
    pub hash: u32,
    pub name: Option<Seq<char>>,
}

impl View for HashName {
    type V = HashNameView;

    open spec fn view(&self) -> HashNameView {
        HashNameView {
            hash: self.hash,
            name: match self.name {
                Some(n) => Some(n@),
                None => None,
            },
        }
    }
}

/// What some names hold.
pub open spec fn name_views(list: Seq<HashName>) -> Seq<HashNameView> {
    list.map_values(|n: HashName| n@)
}

/// What a `MapDataGroup` holds.
pub struct GroupView {
    pub name: HashNameView,
    pub bounds: Seq<HashNameView>,
    pub weather_types: Seq<HashNameView>,
    pub flags: u32,
    pub hours_on_off: u32,
}

impl View for MapDataGroup {
    type V = GroupView;

    open spec fn view(&self) -> GroupView {
        GroupView {
            name: self.name@,
            bounds: name_views(self.bounds@),
            weather_types: name_views(self.weather_types@),
            flags: self.flags,
            hours_on_off: self.hours_on_off,
        }
    }
}

/// What an `ImapDependency` holds.
pub struct ImapView {
    pub imap: HashNameView,
    pub ityp: HashNameView,
    pub pack_file: HashNameView,
}

impl View for ImapDependency {
    type V = ImapView;

    open spec fn view(&self) -> ImapView {
        ImapView { imap: self.imap@, ityp: self.ityp@, pack_file: self.pack_file@ }
    }
}

/// What a `Dependencies` holds.
pub struct DependenciesView {
    pub name: HashNameView,
    pub manifest_flags: u32,
    pub ityp_deps: Seq<HashNameView>,
}

impl View for Dependencies {
    type V = DependenciesView;

    open spec fn view(&self) -> DependenciesView {
        DependenciesView {
            name: self.name@,
            manifest_flags: self.manifest_flags,
            ityp_deps: name_views(self.ityp_deps@),
        }
    }
}

/// What an `HdTxdBinding` holds.
pub struct BindingView {
    pub asset_type: HashNameView,
    pub target_asset: Seq<char>,
    pub hd_txd: Seq<char>,
}

impl View for HdTxdBinding {
    type V = BindingView;

    open spec fn view(&self) -> BindingView {
        BindingView {
            asset_type: self.asset_type@,
            target_asset: self.target_asset@,
            hd_txd: self.hd_txd@,
        }
    }
}

/// What an `InteriorBounds` holds.
pub struct InteriorView {
    pub name: HashNameView,
    pub bounds: Seq<HashNameView>,
}

impl View for InteriorBounds {
    type V = InteriorView;

    open spec fn view(&self) -> InteriorView {
        InteriorView { name: self.name@, bounds: name_views(self.bounds@) }
    }
}

/// What a `Manifest` holds.
pub struct ManifestView {
    pub map_data_groups: Seq<GroupView>,
    pub imap_dependencies: Seq<ImapView>,
    pub imap_dependencies_2: Seq<DependenciesView>,
    pub ityp_dependencies_2: Seq<DependenciesView>,
    pub hd_txd_bindings: Seq<BindingView>,
    pub interiors: Seq<InteriorView>,
}

impl View for Manifest {
    type V = ManifestView;

    open spec fn view(&self) -> ManifestView {
        ManifestView {
            map_data_groups: self.map_data_groups@.map_values(|g: MapDataGroup| g@),
            imap_dependencies: self.imap_dependencies@.map_values(|d: ImapDependency| d@),
            imap_dependencies_2: self.imap_dependencies_2@.map_values(|d: Dependencies| d@),
            ityp_dependencies_2: self.ityp_dependencies_2@.map_values(|d: Dependencies| d@),
            hd_txd_bindings: self.hd_txd_bindings@.map_values(|b: HdTxdBinding| b@),
            interiors: self.interiors@.map_values(|i: InteriorBounds| i@),
        }
    }
}

impl Manifest {
    /// Nothing is listed.
    pub open spec fn lists_nothing(self) -> bool {
        &&& self.map_data_groups.len() == 0
        &&& self.imap_dependencies.len() == 0
        &&& self.imap_dependencies_2.len() == 0
        &&& self.ityp_dependencies_2.len() == 0
        &&& self.hd_txd_bindings.len() == 0
        &&& self.interiors.len() == 0
    }

    /// Whether nothing is listed.
    pub fn is_empty(&self) -> (r: bool)
        ensures
            r == self.lists_nothing(),
    {
        self.map_data_groups.len() == 0 && self.imap_dependencies.len() == 0
            && self.imap_dependencies_2.len() == 0 && self.ityp_dependencies_2.len() == 0
            && self.hd_txd_bindings.len() == 0 && self.interiors.len() == 0
    }
}

impl HashName {
    /// The name as it arrived, or the one of its hash.
    pub open spec fn shown(self, names: Map<u32, Seq<char>>) -> Seq<char> {
        match self.name {
            Some(n) => n@,
            None => resolved(names, self.hash),
        }
    }

    /// The name as it arrived, or the one of its hash.
    pub fn show(&self, names: &NameTable) -> (out: String)
        ensures
            out@ == self.shown(table(*names)),
    {
        match &self.name {
            Some(n) => n.clone(),
            None => resolve(names, self.hash),
        }
    }

    /// The name as a JSON value.
    pub open spec fn as_json(self, names: Map<u32, Seq<char>>) -> Seq<char> {
        match self.name {
            Some(n) => quoted(n@),
            None => json_hash_name(self.hash, names),
        }
    }

    /// The name as a JSON value.
    pub fn json(&self, names: &NameTable) -> (out: String)
        ensures
            out@ == self.as_json(table(*names)),
    {
        match &self.name {
            Some(n) => quote(n.as_str()),
            None => json_name(self.hash, names),
        }
    }
}

// ── Text ────────────────────────────────────────────────────────────────────

/// Writes a name.
pub struct NameText<'a> {
    pub names: &'a NameTable,
}

impl<'a> Writes<HashName> for NameText<'a> {
    open spec fn text_of(&self, i: nat, item: &HashName) -> Seq<char> {
        item.shown(table(*self.names))
    }

    fn write(&self, i: usize, item: &HashName) -> (out: String) {
        item.show(self.names)
    }
}

/// Names, separated by commas.
pub open spec fn names_text(list: Seq<HashName>, names: NameTable) -> Seq<char> {
    join(written(NameText { names: &names }, list), ", "@)
}

fn write_names(list: &Vec<HashName>, names: &NameTable) -> (out: String)
    ensures
        out@ == names_text(list@, *names),
{
    join_with(&write_each(&NameText { names }, list), ", ")
}

/// The type files that a dependency names.
pub open spec fn deps_text(list: Seq<HashName>, names: NameTable) -> Seq<char> {
    if list.len() == 0 {
        "-"@
    } else {
        names_text(list, names)
    }
}

fn write_deps(list: &Vec<HashName>, names: &NameTable) -> (out: String)
    ensures
        out@ == deps_text(list@, *names),
{
    if list.len() == 0 {
        String::from_str("-")
    } else {
        write_names(list, names)
    }
}

/// What is said of the flags of a dependency.
pub open spec fn interior_note(flags: u32) -> Seq<char> {
    if flags & 1 != 0 {
        " [INTERIOR_DATA]"@
    } else {
        ""@
    }
}

fn write_interior_note(flags: u32) -> (out: &'static str)
    ensures
        out@ == interior_note(flags),
{
    if flags & 1 != 0 {
        " [INTERIOR_DATA]"
    } else {
        ""
    }
}

/// What is said of a map that is not next to its manifest, by whether a name
/// list knows it.
pub open spec fn orphan_note(known: Option<bool>) -> Seq<char> {
    match known {
        Some(true) => "  (no such .ymap here; a vanilla map?)"@,
        Some(false) => "  (no such .ymap here, and no list knows the name)"@,
        None => ""@,
    }
}

/// Writes a map and what it depends on.
pub struct MapDependencyLine<'a> {
    pub names: &'a NameTable,
    pub checks: &'a Checks,
}

impl<'a> Writes<Dependencies> for MapDependencyLine<'a> {
    open spec fn text_of(&self, i: nat, item: &Dependencies) -> Seq<char> {
        let name = item.name.shown(table(*self.names));
        "  "@ + name + interior_note(item.manifest_flags) + " -> "@ + deps_text(
            item.ityp_deps@,
            *self.names,
        ) + orphan_note(self.checks@.orphan(name))
    }

    fn write(&self, i: usize, item: &Dependencies) -> (out: String) {
        let name = item.name.show(self.names);
        let mut out = String::from_str("  ");
        out.append(name.as_str());
        out.append(write_interior_note(item.manifest_flags));
        out.append(" -> ");
        out.append(write_deps(&item.ityp_deps, self.names).as_str());
        let note = match self.checks.find_orphan(name.as_str()) {
            Some(true) => "  (no such .ymap here; a vanilla map?)",
            Some(false) => "  (no such .ymap here, and no list knows the name)",
            None => "",
        };
        out.append(note);
        out
    }
}

/// Writes a type file and what it depends on.
pub struct TypeDependencyLine<'a> {
    pub names: &'a NameTable,
}

impl<'a> Writes<Dependencies> for TypeDependencyLine<'a> {
    open spec fn text_of(&self, i: nat, item: &Dependencies) -> Seq<char> {
        "  "@ + item.name.shown(table(*self.names)) + interior_note(item.manifest_flags) + " -> "@
            + deps_text(item.ityp_deps@, *self.names)
    }

    fn write(&self, i: usize, item: &Dependencies) -> (out: String) {
        let mut out = String::from_str("  ");
        out.append(item.name.show(self.names).as_str());
        out.append(write_interior_note(item.manifest_flags));
        out.append(" -> ");
        out.append(write_deps(&item.ityp_deps, self.names).as_str());
        out
    }
}

impl<'a> Writes<ImapDependency> for NameText<'a> {
    open spec fn text_of(&self, i: nat, item: &ImapDependency) -> Seq<char> {
        let names = table(*self.names);
        "  "@ + item.imap.shown(names) + " -> "@ + item.ityp.shown(names) + " (pack "@
            + item.pack_file.shown(names) + ")"@
    }

    fn write(&self, i: usize, item: &ImapDependency) -> (out: String) {
        let mut out = String::from_str("  ");
        out.append(item.imap.show(self.names).as_str());
        out.append(" -> ");
        out.append(item.ityp.show(self.names).as_str());
        out.append(" (pack ");
        out.append(item.pack_file.show(self.names).as_str());
        out.append(")");
        out
    }
}

impl<'a> Writes<InteriorBounds> for NameText<'a> {
    open spec fn text_of(&self, i: nat, item: &InteriorBounds) -> Seq<char> {
        "  "@ + item.name.shown(table(*self.names)) + " -> "@ + names_text(
            item.bounds@,
            *self.names,
        )
    }

    fn write(&self, i: usize, item: &InteriorBounds) -> (out: String) {
        let mut out = String::from_str("  ");
        out.append(item.name.show(self.names).as_str());
        out.append(" -> ");
        out.append(write_names(&item.bounds, self.names).as_str());
        out
    }
}

impl<'a> Writes<HdTxdBinding> for NameText<'a> {
    open spec fn text_of(&self, i: nat, item: &HdTxdBinding) -> Seq<char> {
        "  "@ + item.asset_type.shown(table(*self.names)) + " "@ + item.target_asset@ + " -> "@
            + item.hd_txd@
    }

    fn write(&self, i: usize, item: &HdTxdBinding) -> (out: String) {
        let mut out = String::from_str("  ");
        out.append(item.asset_type.show(self.names).as_str());
        out.append(" ");
        out.append(item.target_asset.as_str());
        out.append(" -> ");
        out.append(item.hd_txd.as_str());
        out
    }
}

impl<'a> Writes<MapDataGroup> for NameText<'a> {
    open spec fn text_of(&self, i: nat, item: &MapDataGroup) -> Seq<char> {
        "  "@ + item.name.shown(table(*self.names)) + " flags 0x"@ + hex_upper(item.flags as nat)
            + " hours 0x"@ + hex_upper(item.hours_on_off as nat) + " bounds ["@ + names_text(
            item.bounds@,
            *self.names,
        ) + "] weather ["@ + names_text(item.weather_types@, *self.names) + "]"@
    }

    fn write(&self, i: usize, item: &MapDataGroup) -> (out: String) {
        let mut out = String::from_str("  ");
        out.append(item.name.show(self.names).as_str());
        out.append(" flags 0x");
        out.append(hex_upper_short(item.flags).as_str());
        out.append(" hours 0x");
        out.append(hex_upper_short(item.hours_on_off).as_str());
        out.append(" bounds [");
        out.append(write_names(&item.bounds, self.names).as_str());
        out.append("] weather [");
        out.append(write_names(&item.weather_types, self.names).as_str());
        out.append("]");
        out
    }
}

/// A section of a manifest: a title with the number of its lines, and the
/// lines; nothing where there are none.
pub open spec fn section(title: Seq<char>, lines: Seq<Seq<char>>) -> Seq<char> {
    if lines.len() == 0 {
        ""@
    } else {
        title + " ("@ + decimal(lines.len()) + "):\n"@ + unlines(lines)
    }
}

fn write_section(title: &str, lines: &Vec<String>) -> (out: String)
    ensures
        out@ == section(title@, texts(lines@)),
{
    if lines.len() == 0 {
        return String::from_str("");
    }
    let mut out = title.to_owned();
    out.append(" (");
    out.append(decimal_of(lines.len() as u64).as_str());
    out.append("):\n");
    out.append(unlines_of(lines).as_str());
    out
}

/// The warning about the maps that exist nowhere.
pub open spec fn unknown_warning(unknown: Seq<Seq<char>>) -> Seq<char> {
    if unknown.len() == 0 {
        ""@
    } else {
        "           warning: "@ + decimal(unknown.len())
            + " declared map(s) exist neither next to this manifest nor in any name list ("@ + join(
            unknown,
            ", "@,
        ) + "); a leftover from a map since renamed or removed?\n"@
    }
}

fn write_unknown_warning(unknown: &Vec<String>) -> (out: String)
    ensures
        out@ == unknown_warning(texts(unknown@)),
{
    if unknown.len() == 0 {
        return String::from_str("");
    }
    let mut out = String::from_str("           warning: ");
    out.append(decimal_of(unknown.len() as u64).as_str());
    out.append(" declared map(s) exist neither next to this manifest nor in any name list (");
    out.append(join_with(unknown, ", ").as_str());
    out.append("); a leftover from a map since renamed or removed?\n");
    out
}

/// What is printed of a manifest.
pub open spec fn manifest_text(m: Manifest, names: NameTable, checks: Checks) -> Seq<char> {
    let by_name = NameText { names: &names };
    if m.lists_nothing() {
        "Manifest:  empty\n"@
    } else {
        section(
            "Map dependencies"@,
            written(MapDependencyLine { names: &names, checks: &checks }, m.imap_dependencies_2@),
        ) + (if m.imap_dependencies_2.len() == 0 {
            ""@
        } else {
            unknown_warning(checks@.unknown())
        }) + section(
            "Type dependencies"@,
            written(TypeDependencyLine { names: &names }, m.ityp_dependencies_2@),
        ) + section("Map dependencies, old form"@, written(by_name, m.imap_dependencies@)) + section(
            "Interiors"@,
            written(by_name, m.interiors@),
        ) + section("HD texture bindings"@, written(by_name, m.hd_txd_bindings@)) + section(
            "Map data groups"@,
            written(by_name, m.map_data_groups@),
        )
    }
}

/// Prints a manifest: each list under its title, with a note at each map that
/// is not next to the manifest and a warning about those that no name list
/// knows either.
pub fn write_manifest(m: &Manifest, names: &NameTable, checks: &Checks) -> (out: String)
    ensures
        out@ == manifest_text(*m, *names, *checks),
{
    if m.is_empty() {
        return String::from_str("Manifest:  empty\n");
    }
    let by_name = NameText { names };
    let mut out = write_section(
        "Map dependencies",
        &write_each(&MapDependencyLine { names, checks }, &m.imap_dependencies_2),
    );
    if m.imap_dependencies_2.len() == 0 {
        out.append("");
    } else {
        out.append(write_unknown_warning(&checks.unknown_imaps()).as_str());
    }
    out.append(
        write_section(
            "Type dependencies",
            &write_each(&TypeDependencyLine { names }, &m.ityp_dependencies_2),
        ).as_str(),
    );
    out.append(
        write_section("Map dependencies, old form", &write_each(&by_name, &m.imap_dependencies)).as_str(),
    );
    out.append(write_section("Interiors", &write_each(&by_name, &m.interiors)).as_str());
    out.append(write_section("HD texture bindings", &write_each(&by_name, &m.hd_txd_bindings)).as_str());
    out.append(write_section("Map data groups", &write_each(&by_name, &m.map_data_groups)).as_str());
    out
}

// ── JSON ────────────────────────────────────────────────────────────────────

/// Writes an item as a JSON value.
pub struct JsonText<'a> {
    pub names: &'a NameTable,
}

impl<'a> Writes<HashName> for JsonText<'a> {
    open spec fn text_of(&self, i: nat, item: &HashName) -> Seq<char> {
        item.as_json(table(*self.names))
    }

    fn write(&self, i: usize, item: &HashName) -> (out: String) {
        item.json(self.names)
    }
}

/// Names as a JSON array.
pub open spec fn names_json(list: Seq<HashName>, names: NameTable) -> Seq<char> {
    array(written(JsonText { names: &names }, list))
}

fn json_names(list: &Vec<HashName>, names: &NameTable) -> (out: String)
    ensures
        out@ == names_json(list@, *names),
{
    array_of(&write_each(&JsonText { names }, list))
}

impl<'a> Writes<MapDataGroup> for JsonText<'a> {
    open spec fn text_of(&self, i: nat, item: &MapDataGroup) -> Seq<char> {
        "{\"name\":"@ + item.name.as_json(table(*self.names)) + ",\"flags\":"@ + decimal(
            item.flags as nat,
        ) + ",\"hours_on_off\":"@ + decimal(item.hours_on_off as nat) + ",\"bounds\":"@ + names_json(
            item.bounds@,
            *self.names,
        ) + ",\"weather_types\":"@ + names_json(item.weather_types@, *self.names) + "}"@
    }

    fn write(&self, i: usize, item: &MapDataGroup) -> (out: String) {
        let mut out = String::from_str("{\"name\":");
        out.append(item.name.json(self.names).as_str());
        out.append(",\"flags\":");
        out.append(decimal_of(item.flags as u64).as_str());
        out.append(",\"hours_on_off\":");
        out.append(decimal_of(item.hours_on_off as u64).as_str());
        out.append(",\"bounds\":");
        out.append(json_names(&item.bounds, self.names).as_str());
        out.append(",\"weather_types\":");
        out.append(json_names(&item.weather_types, self.names).as_str());
        out.append("}");
        out
    }
}

impl<'a> Writes<ImapDependency> for JsonText<'a> {
    open spec fn text_of(&self, i: nat, item: &ImapDependency) -> Seq<char> {
        let names = table(*self.names);
        "{\"imap\":"@ + item.imap.as_json(names) + ",\"ityp\":"@ + item.ityp.as_json(names)
            + ",\"pack_file\":"@ + item.pack_file.as_json(names) + "}"@
    }

    fn write(&self, i: usize, item: &ImapDependency) -> (out: String) {
        let mut out = String::from_str("{\"imap\":");
        out.append(item.imap.json(self.names).as_str());
        out.append(",\"ityp\":");
        out.append(item.ityp.json(self.names).as_str());
        out.append(",\"pack_file\":");
        out.append(item.pack_file.json(self.names).as_str());
        out.append("}");
        out
    }
}

impl<'a> Writes<Dependencies> for JsonText<'a> {
    open spec fn text_of(&self, i: nat, item: &Dependencies) -> Seq<char> {
        "{\"name\":"@ + item.name.as_json(table(*self.names)) + ",\"manifest_flags\":"@ + decimal(
            item.manifest_flags as nat,
        ) + ",\"ityp_deps\":"@ + names_json(item.ityp_deps@, *self.names) + "}"@
    }

    fn write(&self, i: usize, item: &Dependencies) -> (out: String) {
        let mut out = String::from_str("{\"name\":");
        out.append(item.name.json(self.names).as_str());
        out.append(",\"manifest_flags\":");
        out.append(decimal_of(item.manifest_flags as u64).as_str());
        out.append(",\"ityp_deps\":");
        out.append(json_names(&item.ityp_deps, self.names).as_str());
        out.append("}");
        out
    }
}

impl<'a> Writes<HdTxdBinding> for JsonText<'a> {
    open spec fn text_of(&self, i: nat, item: &HdTxdBinding) -> Seq<char> {
        "{\"asset_type\":"@ + item.asset_type.as_json(table(*self.names)) + ",\"target_asset\":"@
            + quoted(item.target_asset@) + ",\"hd_txd\":"@ + quoted(item.hd_txd@) + "}"@
    }

    fn write(&self, i: usize, item: &HdTxdBinding) -> (out: String) {
        let mut out = String::from_str("{\"asset_type\":");
        out.append(item.asset_type.json(self.names).as_str());
        out.append(",\"target_asset\":");
        out.append(quote(item.target_asset.as_str()).as_str());
        out.append(",\"hd_txd\":");
        out.append(quote(item.hd_txd.as_str()).as_str());
        out.append("}");
        out
    }
}

impl<'a> Writes<InteriorBounds> for JsonText<'a> {
    open spec fn text_of(&self, i: nat, item: &InteriorBounds) -> Seq<char> {
        "{\"name\":"@ + item.name.as_json(table(*self.names)) + ",\"bounds\":"@ + names_json(
            item.bounds@,
            *self.names,
        ) + "}"@
    }

    fn write(&self, i: usize, item: &InteriorBounds) -> (out: String) {
        let mut out = String::from_str("{\"name\":");
        out.append(item.name.json(self.names).as_str());
        out.append(",\"bounds\":");
        out.append(json_names(&item.bounds, self.names).as_str());
        out.append("}");
        out
    }
}

impl<'a> Writes<(String, bool)> for JsonText<'a> {
    open spec fn text_of(&self, i: nat, item: &(String, bool)) -> Seq<char> {
        "{\"name\":"@ + quoted(item.0@) + ",\"known_name\":"@ + bool_text(item.1) + "}"@
    }

    fn write(&self, i: usize, item: &(String, bool)) -> (out: String) {
        let mut out = String::from_str("{\"name\":");
        out.append(quote(item.0.as_str()).as_str());
        out.append(",\"known_name\":");
        out.append(bool_of(item.1));
        out.append("}");
        out
    }
}

/// A manifest as a JSON value.
pub open spec fn manifest_json(m: Manifest, names: NameTable, checks: Checks) -> Seq<char> {
    let w = JsonText { names: &names };
    "{\"map_data_groups\":"@ + array(written(w, m.map_data_groups@)) + ",\"imap_dependencies\":"@ + array(
        written(w, m.imap_dependencies@),
    ) + ",\"imap_dependencies_2\":"@ + array(written(w, m.imap_dependencies_2@))
        + ",\"imaps_not_here\":"@ + array(written(w, checks.orphan_imaps@))
        + ",\"ityp_dependencies_2\":"@ + array(written(w, m.ityp_dependencies_2@))
        + ",\"hd_txd_bindings\":"@ + array(written(w, m.hd_txd_bindings@)) + ",\"interiors\":"@ + array(
        written(w, m.interiors@),
    ) + "}"@
}

/// A manifest as a JSON value.
pub fn json_manifest(m: &Manifest, names: &NameTable, checks: &Checks) -> (out: String)
    ensures
        out@ == manifest_json(*m, *names, *checks),
{
    let w = JsonText { names };
    let mut out = String::from_str("{\"map_data_groups\":");
    out.append(array_of(&write_each(&w, &m.map_data_groups)).as_str());
    out.append(",\"imap_dependencies\":");
    out.append(array_of(&write_each(&w, &m.imap_dependencies)).as_str());
    out.append(",\"imap_dependencies_2\":");
    out.append(array_of(&write_each(&w, &m.imap_dependencies_2)).as_str());
    out.append(",\"imaps_not_here\":");
    out.append(array_of(&write_each(&w, &checks.orphan_imaps)).as_str());
    out.append(",\"ityp_dependencies_2\":");
    out.append(array_of(&write_each(&w, &m.ityp_dependencies_2)).as_str());
    out.append(",\"hd_txd_bindings\":");
    out.append(array_of(&write_each(&w, &m.hd_txd_bindings)).as_str());
    out.append(",\"interiors\":");
    out.append(array_of(&write_each(&w, &m.interiors)).as_str());
    out.append("}");
    out
}

} // verus!
