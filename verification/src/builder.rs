//! What a build of packages or of an image asks of the build tool, and what
//! the tool's answer means. The tool itself is run by the caller.

use vstd::prelude::*;

verus! {

/// Why a build failed.
#[derive(Debug)]
pub enum BuildError {
    /// The build tool did not succeed for the package; `output` is what it
    /// printed.
    PackageBuild { package: String, output: String },
}

/// The options with which the build tool makes the packages of `package`
/// for the architecture `arch`.
pub open spec fn package_options(package: Seq<char>, arch: Seq<char>) -> Seq<char> {
    "--opt target=rpm --opt build-arg:Package="@ + package + " --opt build-arg:Arch="@ + arch
}

/// The texts of `parts` in a row, with `separator` between each two.
pub open spec fn joined(parts: Seq<Seq<char>>, separator: char) -> Seq<char>
    decreases parts.len(),
{
    if parts.len() == 0 {
        Seq::empty()
    } else if parts.len() == 1 {
        parts[0]
    } else {
        joined(parts.drop_last(), separator).push(separator) + parts.last()
    }
}

/// Builds the packages of one source package.
#[derive(Debug)]
pub struct PackageBuilder;

impl PackageBuilder {
    /// The options with which the build tool is to be called.
    pub fn options(package: &str, arch: &str) -> (opts: String)
        ensures
            opts@ == package_options(package@, arch@),
    {
        String::from_str("--opt target=rpm --opt build-arg:Package=").concat(package).concat(
            " --opt build-arg:Arch=",
        ).concat(arch)
    }

    /// The result of the build, from how the call of the build tool ended:
    /// `success` says whether the tool succeeded, and `output` is what it
    /// printed.
    pub fn build(package: &str, success: bool, output: String) -> (r: Result<
        PackageBuilder,
        BuildError,
    >)
        ensures
            success ==> r is Ok,
            !success ==> (r matches Err(BuildError::PackageBuild { package: p, output: o }) && p@
                == package@ && o == output),
    {
        if !success {
            return Err(BuildError::PackageBuild { package: String::from_str(package), output });
        }
        Ok(PackageBuilder)
    }
}

/// Builds an image from packages.
#[derive(Debug)]
pub struct ImageBuilder;

impl ImageBuilder {
    /// The names of the packages as the build tool takes them: in a row,
    /// with a bar between each two.
    pub fn package_list(packages: &Vec<String>) -> (list: String)
        ensures
            list@ == joined(Seq::new(packages@.len(), |i: int| packages@[i]@), '|'),
    {
        let ghost parts = Seq::new(packages@.len(), |i: int| packages@[i]@);
        let mut list = String::new();
        let mut i: usize = 0;
        assert(parts.take(0) =~= Seq::<Seq<char>>::empty());
        while i < packages.len()
            invariant
                i <= packages.len(),
                parts == Seq::new(packages@.len(), |i: int| packages@[i]@),
                list@ == joined(parts.take(i as int), '|'),
            decreases packages.len() - i,
        {
            proof {
                assert(parts.take(i + 1).drop_last() =~= parts.take(i as int));
                assert(parts.take(i + 1).last() == packages@[i as int]@);
                if i == 0 {
                    assert(list@ + packages@[i as int]@ =~= packages@[i as int]@);
                }
            }
            if i > 0 {
                list.push('|');
            }
            list.append(packages[i].as_str());
            i += 1;
        }
        assert(parts.take(packages.len() as int) =~= parts);
        list
    }
}

} // verus!
