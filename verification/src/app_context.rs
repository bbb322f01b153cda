//! The state one run works with: the parsed command line, the resolved
//! settings, and the ordered item catalog. The caller collects the outside
//! inputs (environment, files, the application registry) as plain values
//! and hands them in.

use vstd::prelude::*;

use crate::cli::{spec_apply, Cli};
use crate::config::{spec_default_settings, spec_merge, PartialSettings, Settings};
use crate::history::{load_history, spec_load};
use crate::list_item::{
    desc_views, entry_views, item_views, items_valid, menu_list, spec_app_entries,
    spec_menu_list, AppDesc, CatalogError, Entry, ListItem,
};
use crate::rank::{app_list, spec_base_order};
use crate::text::byte_views;

verus! {

/// The settings a command line and an optional parsed configuration file
/// resolve to.
pub open spec fn spec_settings_of(cli: Cli, parsed: Option<PartialSettings>) -> Settings {
    match parsed {
        Some(p) => spec_apply(cli.overrides, spec_merge(p)),
        None => spec_apply(cli.overrides, spec_default_settings()),
    }
}

/// The state of one run.
pub struct AppContext {
    /// The parsed command line.
    pub cli: Cli,
    /// The effective settings.
    pub config: Settings,
    /// The catalog, already in display base order for the launcher case and
    /// in definition order for the menu case.
    pub list_items: Vec<Entry>,
}

impl AppContext {
    /// The run state for the launcher: settings resolved, the history read
    /// from the given file contents under the resolved bound, and the
    /// application catalog in base order under that history.
    pub fn with_app_list(
        cli: Cli,
        parsed: Option<&PartialSettings>,
        descs: &Vec<AppDesc>,
        history_content: &Vec<u8>,
    ) -> (r: AppContext)
        ensures
            r.cli == cli,
            r.config == spec_settings_of(
                cli,
                match parsed {
                    Some(p) => Some(*p),
                    None => None,
                },
            ),
            entry_views(r.list_items@) == spec_base_order(
                spec_app_entries(desc_views(descs@)),
                spec_load(history_content@, r.config.history_size as nat),
            ),
    {
        let config = cli.load_settings(parsed);
        let history = load_history(history_content, config.history_size);
        let list_items = app_list(descs, &history);
        proof {
            assert(byte_views(history@) == spec_load(
                history_content@,
                config.history_size as nat,
            ));
        }
        AppContext { cli, config, list_items }
    }

    /// The run state for a custom menu: settings resolved and the catalog
    /// built from the definitions, in their order. Fails, showing nothing,
    /// exactly when a definition carries an empty command line. The launch
    /// history plays no part here.
    pub fn with_menu_list(
        cli: Cli,
        parsed: Option<&PartialSettings>,
        items: &Vec<ListItem>,
    ) -> (r: Result<AppContext, CatalogError>)
        ensures
            r matches Ok(ctx) ==> {
                &&& ctx.cli == cli
                &&& ctx.config == spec_settings_of(
                    cli,
                    match parsed {
                        Some(p) => Some(*p),
                        None => None,
                    },
                )
                &&& items_valid(item_views(items@))
                &&& entry_views(ctx.list_items@) == spec_menu_list(item_views(items@))
            },
            r matches Err(er) ==> !items_valid(item_views(items@)) && er
                == CatalogError::EmptyExec,
    {
        let list_items = match menu_list(items) {
            Ok(es) => es,
            Err(er) => {
                return Err(er);
            },
        };
        let config = cli.load_settings(parsed);
        Ok(AppContext { cli, config, list_items })
    }

    /// The window size the settings ask for.
    pub fn get_window_size(&self) -> (r: (i32, i32))
        ensures
            r.0 == self.config.width,
            r.1 == self.config.height,
    {
        (self.config.width, self.config.height)
    }
}

} // verus!
