//! Data types describing the interesting parts of an Android manifest, and
//! their mathematical models.

use vstd::prelude::*;

verus! {

/// A component declared in the manifest (activity / service / receiver / provider).
#[derive(Debug, Clone)]
pub struct Component {
    pub name: String,
    pub exported: Option<bool>,
    pub enabled: Option<bool>,
    pub permission: Option<String>,
}

/// A `<uses-permission>` declaration.
#[derive(Debug, Clone)]
pub struct Permission {
    pub name: String,
    pub max_sdk_version: Option<u32>,
}

/// The subset of `AndroidManifest.xml` that static analysis surfaces first.
/// Everything here is extractable without invoking any external tool.
#[derive(Debug, Clone)]
pub struct ApkManifest {
    pub package: String,
    pub version_code: Option<String>,
    pub version_name: Option<String>,
    pub min_sdk_version: Option<u32>,
    pub target_sdk_version: Option<u32>,
    pub max_sdk_version: Option<u32>,
    pub compile_sdk_version: Option<u32>,
    pub permissions: Vec<Permission>,
    pub activities: Vec<Component>,
    pub services: Vec<Component>,
    pub receivers: Vec<Component>,
    pub providers: Vec<Component>,
    pub application: Option<Component>,
}

/// Model of a [`Component`]: its strings as character sequences.
pub struct ComponentView {
    pub name: Seq<char>,
    pub exported: Option<bool>,
    pub enabled: Option<bool>,
    pub permission: Option<Seq<char>>,
}

/// Model of a [`Permission`].
pub struct PermissionView {
    pub name: Seq<char>,
    pub max_sdk_version: Option<u32>,
}

/// Model of an [`ApkManifest`].
pub struct ManifestView {
    pub package: Seq<char>,
    pub version_code: Option<Seq<char>>,
    pub version_name: Option<Seq<char>>,
    pub min_sdk_version: Option<u32>,
    pub target_sdk_version: Option<u32>,
    pub max_sdk_version: Option<u32>,
    pub compile_sdk_version: Option<u32>,
    pub permissions: Seq<PermissionView>,
    pub activities: Seq<ComponentView>,
    pub services: Seq<ComponentView>,
    pub receivers: Seq<ComponentView>,
    pub providers: Seq<ComponentView>,
    pub application: Option<ComponentView>,
}

impl DeepView for Component {
    type V = ComponentView;

    open spec fn deep_view(&self) -> ComponentView {
        ComponentView {
            name: self.name@,
            exported: self.exported,
            enabled: self.enabled,
            permission: self.permission.deep_view(),
        }
    }
}

impl View for Component {
    type V = ComponentView;

    open spec fn view(&self) -> ComponentView {
        self.deep_view()
    }
}

impl DeepView for Permission {
    type V = PermissionView;

    open spec fn deep_view(&self) -> PermissionView {
        PermissionView { name: self.name@, max_sdk_version: self.max_sdk_version }
    }
}

impl View for Permission {
    type V = PermissionView;

    open spec fn view(&self) -> PermissionView {
        self.deep_view()
    }
}

impl View for ApkManifest {
    type V = ManifestView;

    open spec fn view(&self) -> ManifestView {
        ManifestView {
            package: self.package@,
            version_code: self.version_code.deep_view(),
            version_name: self.version_name.deep_view(),
            min_sdk_version: self.min_sdk_version,
            target_sdk_version: self.target_sdk_version,
            max_sdk_version: self.max_sdk_version,
            compile_sdk_version: self.compile_sdk_version,
            permissions: self.permissions.deep_view(),
            activities: self.activities.deep_view(),
            services: self.services.deep_view(),
            receivers: self.receivers.deep_view(),
            providers: self.providers.deep_view(),
            application: self.application.deep_view(),
        }
    }
}

/// The manifest before any record has been read: nothing known.
pub open spec fn empty_manifest() -> ManifestView {
    ManifestView {
        package: Seq::empty(),
        version_code: None,
        version_name: None,
        min_sdk_version: None,
        target_sdk_version: None,
        max_sdk_version: None,
        compile_sdk_version: None,
        permissions: Seq::empty(),
        activities: Seq::empty(),
        services: Seq::empty(),
        receivers: Seq::empty(),
        providers: Seq::empty(),
        application: None,
    }
}

impl Default for ApkManifest {
    fn default() -> (res: Self)
        ensures
            res@ == empty_manifest(),
    {
        let res = ApkManifest {
            package: String::new(),
            version_code: None,
            version_name: None,
            min_sdk_version: None,
            target_sdk_version: None,
            max_sdk_version: None,
            compile_sdk_version: None,
            permissions: Vec::new(),
            activities: Vec::new(),
            services: Vec::new(),
            receivers: Vec::new(),
            providers: Vec::new(),
            application: None,
        };
        assert(res@.permissions =~= Seq::<PermissionView>::empty());
        assert(res@.activities =~= Seq::<ComponentView>::empty());
        assert(res@.services =~= Seq::<ComponentView>::empty());
        assert(res@.receivers =~= Seq::<ComponentView>::empty());
        assert(res@.providers =~= Seq::<ComponentView>::empty());
        res
    }
}

/// Appends `x` to `v`, stated over the models.
pub(crate) fn push_component(v: &mut Vec<Component>, x: Component)
    ensures
        final(v).deep_view() == old(v).deep_view().push(x@),
{
    let ghost before = v.deep_view();
    v.push(x);
    assert(v.deep_view() =~= before.push(x@));
}

/// Appends `x` to `v`, stated over the models.
pub(crate) fn push_permission(v: &mut Vec<Permission>, x: Permission)
    ensures
        final(v).deep_view() == old(v).deep_view().push(x@),
{
    let ghost before = v.deep_view();
    v.push(x);
    assert(v.deep_view() =~= before.push(x@));
}

} // verus!
