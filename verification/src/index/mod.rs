//! The index of the workspace: one store per kind of record, and the queries that span
//! several stores.
use vstd::prelude::*;

pub mod component_store;
pub mod controller_store;
pub mod definition_store;
pub mod di_usage_store;
pub mod diagnostics_store;
pub mod export_store;
pub mod html_resolve;
pub mod html_store;
pub mod interpolate_store;
pub mod query;
pub mod snapshot;
pub mod store;
pub mod symbol;
pub mod tables;
pub mod template_store;

use component_store::ComponentStore;
use controller_store::ControllerStore;
use definition_store::DefinitionStore;
use di_usage_store::DiUsageStore;
use export_store::ExportStore;
use html_store::HtmlStore;
use interpolate_store::InterpolateStore;
use template_store::TemplateStore;

verus! {

/// The stores of the index, and whether the first scan of the workspace is complete.
pub struct Index {
    pub definitions: DefinitionStore,
    pub controllers: ControllerStore,
    pub templates: TemplateStore,
    pub html: HtmlStore,
    pub exports: ExportStore,
    pub components: ComponentStore,
    pub interpolate: InterpolateStore,
    pub di_usages: DiUsageStore,
    /// Whether the first scan of the workspace is complete.
    pub workspace_scanned: bool,
}

impl Index {
    /// Whether the first scan of the workspace is complete.
    pub open spec fn scanned(&self) -> bool {
        self.workspace_scanned
    }

    pub fn new() -> (r: Self)
        ensures
            r.definitions.wf(),
            r.definitions.defs() =~= Map::empty(),
            r.definitions.refs() =~= Map::empty(),
            r.definitions.docs() =~= Map::empty(),
            r.controllers.scopes() =~= Map::empty(),
            r.controllers.html_scopes() =~= Map::empty(),
            r.templates.bindings() =~= Map::empty(),
            r.templates.includes() =~= Map::empty(),
            r.templates.by_filename() =~= Map::empty(),
            r.templates.by_path() =~= Map::empty(),
            r.templates.views_of() =~= Map::empty(),
            r.templates.route_templates() =~= Set::empty(),
            r.templates.pending() =~= Set::empty(),
            r.templates.analyzed() =~= Set::empty(),
            r.html@.scope_references =~= Map::empty(),
            r.html@.local_variables =~= Map::empty(),
            r.html@.local_variable_references =~= Map::empty(),
            r.html@.form_bindings =~= Map::empty(),
            r.html@.directive_references =~= Map::empty(),
            r.html@.ng_model_targets =~= Map::empty(),
            r.html@.ui_sref_references =~= Map::empty(),
            r.html@.component_usages =~= Map::empty(),
            r.exports.export_view() =~= Map::empty(),
            r.exports.object_view() =~= Map::empty(),
            r.exports.import_view() =~= Map::empty(),
            r.components.urls() =~= Map::empty(),
            r.components.bindings() =~= Map::empty(),
            r.interpolate@ =~= Map::empty(),
            r.di_usages.view() =~= Map::empty(),
            !r.scanned(),
    {
        Index {
            definitions: DefinitionStore::new(),
            controllers: ControllerStore::new(),
            templates: TemplateStore::new(),
            html: HtmlStore::new(),
            exports: ExportStore::new(),
            components: ComponentStore::new(),
            interpolate: InterpolateStore::new(),
            di_usages: DiUsageStore::new(),
            workspace_scanned: false,
        }
    }

    /// Records that the first scan of the workspace is complete (diagnostics that need
    /// every symbol wait for it).
    pub fn mark_workspace_scanned(&mut self)
        ensures
            final(self).scanned(),
    {
        self.workspace_scanned = true;
    }

    pub fn is_workspace_scanned(&self) -> (r: bool)
        ensures
            r == self.scanned(),
    {
        self.workspace_scanned
    }

    /// Drops what every store recorded for `uri`.
    pub fn clear_document(&mut self, uri: &str)
        requires
            old(self).definitions.wf(),
        ensures
            final(self).definitions.wf(),
            final(self).definitions.docs() == old(self).definitions.docs().remove(uri@),
            final(self).controllers.scopes() == old(self).controllers.scopes().remove(uri@),
            final(self).controllers.html_scopes() == old(self).controllers.html_scopes().remove(uri@),
            final(self).templates.views_of() == old(self).templates.views_of().remove(uri@),
            final(self).html@.scope_references == old(self).html@.scope_references.remove(uri@),
            final(self).html@.form_bindings == old(self).html@.form_bindings.remove(uri@),
            final(self).components.urls() == old(self).components.urls().remove(uri@),
            final(self).exports.import_view() == old(self).exports.import_view().remove(uri@),
            final(self).interpolate@ == old(self).interpolate@.remove(uri@),
            final(self).di_usages.view() == old(self).di_usages.view().remove(uri@),
            final(self).scanned() == old(self).scanned(),
    {
        self.definitions.clear_document(uri);
        self.controllers.clear_document(uri);
        self.templates.clear_document(uri);
        self.html.clear_document(uri);
        self.exports.clear_document(uri);
        self.components.clear_document(uri);
        self.interpolate.clear_document(uri);
        self.di_usages.clear_document(uri);
    }

    /// Empties every store.
    pub fn clear_all(&mut self)
        ensures
            final(self).definitions.wf(),
            final(self).definitions.defs() =~= Map::empty(),
            final(self).definitions.refs() =~= Map::empty(),
            final(self).controllers.html_scopes() =~= Map::empty(),
            final(self).templates.includes() =~= Map::empty(),
            final(self).html@.scope_references =~= Map::empty(),
            final(self).interpolate@ =~= Map::empty(),
            final(self).di_usages.view() =~= Map::empty(),
            final(self).scanned() == old(self).scanned(),
    {
        self.definitions.clear_all();
        self.controllers.clear_all();
        self.templates.clear_all();
        self.html.clear_all();
        self.exports.clear_all();
        self.components.clear_all();
        self.interpolate.clear_all();
        self.di_usages.clear_all();
    }

    /// Drops what the template pass recorded for `uri`.
    pub fn clear_html_references(&mut self, uri: &str)
        ensures
            final(self).html@.scope_references == old(self).html@.scope_references.remove(uri@),
            final(self).html@.form_bindings == old(self).html@.form_bindings,
    {
        self.html.clear_html_references(uri);
    }

    /// Takes the templates waiting to be analysed again.
    pub fn take_pending_reanalysis(&mut self) -> (r: Vec<String>)
        ensures
            forall|k: Seq<char>| old(self).templates.pending().contains(k) <==> exists|i: int| 0 <= i < r@.len() && #[trigger] r@[i]@ == k,
            final(self).templates.pending() =~= Set::empty(),
    {
        self.templates.take_pending_reanalysis()
    }

    pub fn remove_from_pending_reanalysis(&mut self, uri: &str)
        ensures
            final(self).templates.pending() == old(self).templates.pending().remove(uri@),
    {
        self.templates.remove_from_pending_reanalysis(uri);
    }

    pub fn add_pending_reanalysis(&mut self, uri: String)
        ensures
            final(self).templates.pending() == old(self).templates.pending().insert(uri@),
    {
        self.templates.add_pending_reanalysis(uri);
    }

    pub fn mark_html_analyzed(&mut self, uri: &str)
        ensures
            final(self).templates.analyzed() == old(self).templates.analyzed().insert(uri@),
    {
        self.templates.mark_html_analyzed(uri);
    }
}

} // verus!
