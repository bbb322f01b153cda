//! The item catalog: one selectable entry per launchable item, built either
//! from the system application registry (as plain descriptors handed in by
//! the caller) or from a user-supplied list of menu definitions. Text is
//! kept as UTF-8 bytes; icons are opaque references the core never reads.

use vstd::prelude::*;

use crate::text::{byte_views, clone_byte_list, clone_bytes};

verus! {

/// An icon reference: a named icon of the system theme, or an icon file.
/// Purely cosmetic; nothing in the core depends on it.
pub enum IconRef {
    SystemIconHandle(Vec<u8>),
    FileBackedIcon(Vec<u8>),
}

/// Mathematical view of an icon reference.
pub enum IconV {
    System(Seq<u8>),
    File(Seq<u8>),
}

impl View for IconRef {
    type V = IconV;

    open spec fn view(&self) -> IconV {
        match self {
            IconRef::SystemIconHandle(n) => IconV::System(n@),
            IconRef::FileBackedIcon(p) => IconV::File(p@),
        }
    }
}

impl Clone for IconRef {
    fn clone(&self) -> (r: Self)
        ensures
            r@ == self@,
    {
        match self {
            IconRef::SystemIconHandle(n) => IconRef::SystemIconHandle(clone_bytes(n)),
            IconRef::FileBackedIcon(p) => IconRef::FileBackedIcon(clone_bytes(p)),
        }
    }
}

/// What choosing an entry does: start a registry application by identifier,
/// print the identifier, or spawn a command line.
pub enum Launch {
    DesktopApp,
    Echo,
    Exec(Vec<Vec<u8>>),
}

/// Mathematical view of a launch action.
pub enum LaunchV {
    DesktopApp,
    Echo,
    Exec(Seq<Seq<u8>>),
}

impl View for Launch {
    type V = LaunchV;

    open spec fn view(&self) -> LaunchV {
        match self {
            Launch::DesktopApp => LaunchV::DesktopApp,
            Launch::Echo => LaunchV::Echo,
            Launch::Exec(argv) => LaunchV::Exec(byte_views(argv@)),
        }
    }
}

impl Clone for Launch {
    fn clone(&self) -> (r: Self)
        ensures
            r@ == self@,
    {
        match self {
            Launch::DesktopApp => Launch::DesktopApp,
            Launch::Echo => Launch::Echo,
            Launch::Exec(argv) => Launch::Exec(clone_byte_list(argv)),
        }
    }
}

/// One selectable entry of the catalog.
pub struct Entry {
    /// Stable identifier: the registry identifier for applications, the
    /// label for menu entries.
    pub id: Vec<u8>,
    /// Text shown and matched against search input.
    pub label: Vec<u8>,
    /// Secondary text also matched against search input: the executable
    /// basename for applications, the label again for menu entries.
    pub match_text: Vec<u8>,
    /// Optional icon, passed through untouched.
    pub icon: Option<IconRef>,
    /// What launching the entry does.
    pub action: Launch,
}

/// Mathematical view of an entry.
pub struct EntryV {
    pub id: Seq<u8>,
    pub label: Seq<u8>,
    pub match_text: Seq<u8>,
    pub icon: Option<IconV>,
    pub action: LaunchV,
}

impl View for Entry {
    type V = EntryV;

    open spec fn view(&self) -> EntryV {
        EntryV {
            id: self.id@,
            label: self.label@,
            match_text: self.match_text@,
            icon: match self.icon {
                Some(i) => Some(i@),
                None => None,
            },
            action: self.action@,
        }
    }
}

impl Clone for Entry {
    fn clone(&self) -> (r: Self)
        ensures
            r@ == self@,
    {
        Entry {
            id: clone_bytes(&self.id),
            label: clone_bytes(&self.label),
            match_text: clone_bytes(&self.match_text),
            icon: match &self.icon {
                Some(i) => Some(i.clone()),
                None => None,
            },
            action: self.action.clone(),
        }
    }
}

/// The views of a sequence of entries.
pub open spec fn entry_views(s: Seq<Entry>) -> Seq<EntryV> {
    s.map_values(|e: Entry| e@)
}

/// A well-formed entry: a command action always has a program to spawn.
pub open spec fn wf_entry(e: EntryV) -> bool {
    e.action matches LaunchV::Exec(argv) ==> argv.len() >= 1
}

/// One menu definition as supplied by the caller: a label, an optional icon
/// file path, and an optional command line.
pub struct ListItem {
    pub label: Vec<u8>,
    pub icon: Option<Vec<u8>>,
    pub exec_argv: Option<Vec<Vec<u8>>>,
}

/// Mathematical view of a menu definition.
pub struct ListItemV {
    pub label: Seq<u8>,
    pub icon: Option<Seq<u8>>,
    pub exec_argv: Option<Seq<Seq<u8>>>,
}

impl View for ListItem {
    type V = ListItemV;

    open spec fn view(&self) -> ListItemV {
        ListItemV {
            label: self.label@,
            icon: match self.icon {
                Some(ref p) => Some(p@),
                None => None,
            },
            exec_argv: match self.exec_argv {
                Some(ref a) => Some(byte_views(a@)),
                None => None,
            },
        }
    }
}

/// The views of a sequence of menu definitions.
pub open spec fn item_views(s: Seq<ListItem>) -> Seq<ListItemV> {
    s.map_values(|it: ListItem| it@)
}

/// Why building a catalog from menu definitions failed.
#[derive(Clone, Copy, PartialEq, Eq, Structural, Debug)]
pub enum CatalogError {
    /// A definition carries an `exec` list with no elements, so there is no
    /// program to spawn.
    EmptyExec,
}

/// A menu definition the catalog accepts: if a command line is given it
/// names a program.
pub open spec fn item_valid(it: ListItemV) -> bool {
    it.exec_argv matches Some(argv) ==> argv.len() >= 1
}

/// Every menu definition in the list is accepted.
pub open spec fn items_valid(items: Seq<ListItemV>) -> bool {
    forall|i: int| 0 <= i < items.len() ==> item_valid(#[trigger] items[i])
}

/// The entry a valid menu definition yields: identifier and match text both
/// equal the label, the icon is file-backed if given, and the action echoes
/// the label unless a command line is given.
pub open spec fn spec_entry_of_item(it: ListItemV) -> EntryV {
    EntryV {
        id: it.label,
        label: it.label,
        match_text: it.label,
        icon: match it.icon {
            Some(p) => Some(IconV::File(p)),
            None => None,
        },
        action: match it.exec_argv {
            Some(argv) => LaunchV::Exec(argv),
            None => LaunchV::Echo,
        },
    }
}

/// The catalog a list of valid menu definitions yields, in list order.
pub open spec fn spec_menu_list(items: Seq<ListItemV>) -> Seq<EntryV>
    decreases items.len(),
{
    if items.len() == 0 {
        Seq::empty()
    } else {
        spec_menu_list(items.drop_last()).push(spec_entry_of_item(items.last()))
    }
}

/// Builds the entry for one menu definition, or rejects it.
fn entry_of_item(it: &ListItem) -> (r: Result<Entry, CatalogError>)
    ensures
        r matches Ok(e) ==> item_valid(it@) && e@ == spec_entry_of_item(it@),
        r matches Err(er) ==> !item_valid(it@) && er == CatalogError::EmptyExec,
{
    let action = match &it.exec_argv {
        Some(argv) => {
            if argv.len() == 0 {
                return Err(CatalogError::EmptyExec);
            }
            Launch::Exec(clone_byte_list(argv))
        },
        None => Launch::Echo,
    };
    let icon = match &it.icon {
        Some(p) => Some(IconRef::FileBackedIcon(clone_bytes(p))),
        None => None,
    };
    Ok(
        Entry {
            id: clone_bytes(&it.label),
            label: clone_bytes(&it.label),
            match_text: clone_bytes(&it.label),
            icon,
            action,
        },
    )
}

/// Builds the catalog for a user-supplied menu: one entry per definition, in
/// order. Fails, producing no catalog, exactly when some definition carries
/// an empty `exec` list.
pub fn menu_list(items: &Vec<ListItem>) -> (r: Result<Vec<Entry>, CatalogError>)
    ensures
        r matches Ok(es) ==> items_valid(item_views(items@)) && entry_views(es@)
            == spec_menu_list(item_views(items@)),
        r matches Err(er) ==> !items_valid(item_views(items@)) && er
            == CatalogError::EmptyExec,
{
    let mut out: Vec<Entry> = Vec::new();
    let mut i: usize = 0;
    while i < items.len()
        invariant
            i <= items.len(),
            forall|k: int| 0 <= k < i ==> item_valid(#[trigger] item_views(items@)[k]),
            entry_views(out@) == spec_menu_list(item_views(items@).take(i as int)),
        decreases items.len() - i,
    {
        let ghost pre = item_views(items@).take(i as int);
        match entry_of_item(&items[i]) {
            Ok(e) => {
                out.push(e);
                proof {
                    assert(pre.push(items@[i as int]@) =~= item_views(items@).take(i + 1));
                    assert(item_views(items@).take(i + 1).drop_last() =~= pre);
                    assert(entry_views(out@) =~= entry_views(out@.drop_last()).push(
                        spec_entry_of_item(items@[i as int]@),
                    ));
                }
            },
            Err(er) => {
                assert(!item_valid(item_views(items@)[i as int]));
                return Err(er);
            },
        }
        i = i + 1;
    }
    assert(item_views(items@).take(items@.len() as int) =~= item_views(items@));
    Ok(out)
}

/// One application descriptor as enumerated from the system registry,
/// reduced to the plain values the catalog reads.
pub struct AppDesc {
    /// The registry identifier.
    pub id: Vec<u8>,
    /// The display name.
    pub name: Vec<u8>,
    /// The basename of the executable.
    pub executable: Vec<u8>,
    /// Optional icon reference.
    pub icon: Option<IconRef>,
    /// Whether the registry flags the application for display.
    pub should_show: bool,
}

/// Mathematical view of an application descriptor.
pub struct AppDescV {
    pub id: Seq<u8>,
    pub name: Seq<u8>,
    pub executable: Seq<u8>,
    pub icon: Option<IconV>,
    pub should_show: bool,
}

impl View for AppDesc {
    type V = AppDescV;

    open spec fn view(&self) -> AppDescV {
        AppDescV {
            id: self.id@,
            name: self.name@,
            executable: self.executable@,
            icon: match self.icon {
                Some(ref i) => Some(i@),
                None => None,
            },
            should_show: self.should_show,
        }
    }
}

/// The views of a sequence of application descriptors.
pub open spec fn desc_views(s: Seq<AppDesc>) -> Seq<AppDescV> {
    s.map_values(|d: AppDesc| d@)
}

/// The entry an application descriptor yields: the registry identifier, the
/// display name, the executable basename as secondary match text, and a
/// registry launch.
pub open spec fn spec_entry_of_app(a: AppDescV) -> EntryV {
    EntryV {
        id: a.id,
        label: a.name,
        match_text: a.executable,
        icon: a.icon,
        action: LaunchV::DesktopApp,
    }
}

/// The catalog the registry yields: the descriptors flagged for display, in
/// enumeration order, each as a registry-launch entry.
pub open spec fn spec_app_entries(descs: Seq<AppDescV>) -> Seq<EntryV>
    decreases descs.len(),
{
    if descs.len() == 0 {
        Seq::empty()
    } else {
        let rest = spec_app_entries(descs.drop_last());
        if descs.last().should_show {
            rest.push(spec_entry_of_app(descs.last()))
        } else {
            rest
        }
    }
}

/// Builds the unordered application catalog: every descriptor the registry
/// flags for display becomes an entry, in enumeration order.
pub fn app_entries(descs: &Vec<AppDesc>) -> (r: Vec<Entry>)
    ensures
        entry_views(r@) == spec_app_entries(desc_views(descs@)),
{
    let mut out: Vec<Entry> = Vec::new();
    let mut i: usize = 0;
    while i < descs.len()
        invariant
            i <= descs.len(),
            entry_views(out@) == spec_app_entries(desc_views(descs@).take(i as int)),
        decreases descs.len() - i,
    {
        let ghost pre = desc_views(descs@).take(i as int);
        proof {
            assert(pre.push(descs@[i as int]@) =~= desc_views(descs@).take(i + 1));
            assert(desc_views(descs@).take(i + 1).drop_last() =~= pre);
        }
        if descs[i].should_show {
            let d = &descs[i];
            let e = Entry {
                id: clone_bytes(&d.id),
                label: clone_bytes(&d.name),
                match_text: clone_bytes(&d.executable),
                icon: match &d.icon {
                    Some(ic) => Some(ic.clone()),
                    None => None,
                },
                action: Launch::DesktopApp,
            };
            out.push(e);
            proof {
                assert(entry_views(out@) =~= entry_views(out@.drop_last()).push(
                    spec_entry_of_app(descs@[i as int]@),
                ));
            }
        }
        i = i + 1;
    }
    assert(desc_views(descs@).take(descs@.len() as int) =~= desc_views(descs@));
    out
}

} // verus!
