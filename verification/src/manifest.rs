//! The build settings that a package's manifest can carry.

use vstd::prelude::*;

verus! {

/// The format of a disk image.
#[derive(Debug, Clone, Copy, PartialEq, Eq, Structural)]
pub enum ImageFormat {
    Raw,
    Vmdk,
}

/// A file that a package build fetches from elsewhere.
#[derive(Debug)]
pub struct ExternalFile {
    pub path: Option<String>,
    pub sha512: String,
    pub url: String,
}

/// The settings of a package build.
#[derive(Debug)]
pub struct BuildPackage {
    pub external_files: Option<Vec<ExternalFile>>,
    pub package_name: Option<String>,
    pub source_groups: Option<Vec<String>>,
    pub variant_sensitive: Option<bool>,
}

/// The settings of a variant build.
#[derive(Debug)]
pub struct BuildVariant {
    pub included_packages: Option<Vec<String>>,
    pub image_format: Option<ImageFormat>,
}

/// The `metadata` table of a package.
#[derive(Debug)]
pub struct Metadata {
    pub build_package: Option<BuildPackage>,
    pub build_variant: Option<BuildVariant>,
}

/// The `package` table of a manifest.
#[derive(Debug)]
pub struct Package {
    pub metadata: Option<Metadata>,
}

/// The build settings found in a manifest.
#[derive(Debug)]
pub struct ManifestInfo {
    package: Package,
}

impl ManifestInfo {
    /// The `package` table that the manifest holds.
    pub closed spec fn package(&self) -> Package {
        self.package
    }

    /// The settings of the package build, where the manifest has the tables
    /// that lead to them.
    pub open spec fn spec_build_package(&self) -> Option<BuildPackage> {
        match self.package().metadata {
            Some(metadata) => metadata.build_package,
            None => None,
        }
    }

    /// The settings of the variant build, where the manifest has the tables
    /// that lead to them.
    pub open spec fn spec_build_variant(&self) -> Option<BuildVariant> {
        match self.package().metadata {
            Some(metadata) => metadata.build_variant,
            None => None,
        }
    }

    /// The settings found in the given `package` table.
    pub fn from_package(package: Package) -> (info: ManifestInfo)
        ensures
            info.package() == package,
    {
        ManifestInfo { package }
    }

    /// The list of source groups.
    pub fn source_groups(&self) -> (r: Option<&Vec<String>>)
        ensures
            match self.spec_build_package() {
                Some(build) => match build.source_groups {
                    Some(groups) => r == Some(&groups),
                    None => r is None,
                },
                None => r is None,
            },
    {
        match self.build_package() {
            Some(build) => build.source_groups.as_ref(),
            None => None,
        }
    }

    /// The list of external files.
    pub fn external_files(&self) -> (r: Option<&Vec<ExternalFile>>)
        ensures
            match self.spec_build_package() {
                Some(build) => match build.external_files {
                    Some(files) => r == Some(&files),
                    None => r is None,
                },
                None => r is None,
            },
    {
        match self.build_package() {
            Some(build) => build.external_files.as_ref(),
            None => None,
        }
    }

    /// The name that overrides the package's own, if any.
    pub fn package_name(&self) -> (r: Option<&String>)
        ensures
            match self.spec_build_package() {
                Some(build) => match build.package_name {
                    Some(name) => r == Some(&name),
                    None => r is None,
                },
                None => r is None,
            },
    {
        match self.build_package() {
            Some(build) => build.package_name.as_ref(),
            None => None,
        }
    }

    /// Whether the package is sensitive to a change of variant.
    pub fn variant_sensitive(&self) -> (r: Option<bool>)
        ensures
            r == match self.spec_build_package() {
                Some(build) => build.variant_sensitive,
                None => None,
            },
    {
        match self.build_package() {
            Some(build) => build.variant_sensitive,
            None => None,
        }
    }

    /// The list of included packages.
    pub fn included_packages(&self) -> (r: Option<&Vec<String>>)
        ensures
            match self.spec_build_variant() {
                Some(build) => match build.included_packages {
                    Some(packages) => r == Some(&packages),
                    None => r is None,
                },
                None => r is None,
            },
    {
        match self.build_variant() {
            Some(build) => build.included_packages.as_ref(),
            None => None,
        }
    }

    /// The image format that overrides the default, if any.
    pub fn image_format(&self) -> (r: Option<&ImageFormat>)
        ensures
            match self.spec_build_variant() {
                Some(build) => match build.image_format {
                    Some(format) => r == Some(&format),
                    None => r is None,
                },
                None => r is None,
            },
    {
        match self.build_variant() {
            Some(build) => build.image_format.as_ref(),
            None => None,
        }
    }

    /// The settings of the package build, through the optional tables that
    /// lead to them.
    pub fn build_package(&self) -> (r: Option<&BuildPackage>)
        ensures
            match self.spec_build_package() {
                Some(build) => r == Some(&build),
                None => r is None,
            },
    {
        match &self.package.metadata {
            Some(metadata) => metadata.build_package.as_ref(),
            None => None,
        }
    }

    /// The settings of the variant build, through the optional tables that
    /// lead to them.
    pub fn build_variant(&self) -> (r: Option<&BuildVariant>)
        ensures
            match self.spec_build_variant() {
                Some(build) => r == Some(&build),
                None => r is None,
            },
    {
        match &self.package.metadata {
            Some(metadata) => metadata.build_variant.as_ref(),
            None => None,
        }
    }
}

} // verus!
