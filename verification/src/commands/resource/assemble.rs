//! `rage resource build`: which container a dump is written back into, and
//! what is said of it.
use vstd::prelude::*;
use vstd::string::*;
use crate::text::{
    ascii_lowercase, decimal, decimal_of, lowercase, same, to_ascii_lowercase, to_lowercase,
};

verus! {

/// The arguments of `rage resource build`.
#[derive(Debug)]
pub struct BuildArgs {
    /// A dump, as XML or JSON.
    pub input: String,
    pub output: String,
    /// The container, where the output's extension does not say it.
    pub format: Option<String>,
    /// A file to take the structure definitions from.
    pub schema: Option<String>,
    /// Refuse to write a file that a warning was given of.
    pub strict: bool,
}

/// The containers that can be written.
#[derive(Debug, Clone, Copy, PartialEq, Eq, Structural)]
pub enum BuildFormat {
    Meta,
    Pso,
}

/// The name of a container.
pub open spec fn format_name(format: BuildFormat) -> Seq<char> {
    match format {
        BuildFormat::Meta => "RSC7 Meta"@,
        BuildFormat::Pso => "PSO"@,
    }
}

impl BuildFormat {
    /// The name of the container.
    pub fn name(&self) -> (out: &'static str)
        ensures
            out@ == format_name(*self),
    {
        match self {
            BuildFormat::Meta => "RSC7 Meta",
            BuildFormat::Pso => "PSO",
        }
    }
}

/// The container that a format's name asks for.
pub open spec fn named_format(name: Seq<char>) -> Option<BuildFormat> {
    let low = ascii_lowercase(name);
    if low == "meta"@ {
        Some(BuildFormat::Meta)
    } else if low == "pso"@ {
        Some(BuildFormat::Pso)
    } else {
        None
    }
}

/// The container of files of the given lowercase extension.
pub open spec fn usual_format(ext: Seq<char>) -> Option<BuildFormat> {
    if ext == "ymap"@ || ext == "ytyp"@ || ext == "ymt"@ {
        Some(BuildFormat::Meta)
    } else if ext == "ymf"@ || ext == "pso"@ {
        Some(BuildFormat::Pso)
    } else {
        None
    }
}

fn unknown_format(name: &str) -> (e: String)
    ensures
        e@ == "unknown format '"@ + name@ + "'; expected meta or pso"@,
{
    let mut e = String::from_str("unknown format '");
    e.append(name);
    e.append("'; expected meta or pso");
    e
}

fn unknown_container(output: &str) -> (e: String)
    ensures
        e@ == "cannot tell the container of "@ + output@
            + " from its extension; give --format meta or --format pso"@,
{
    let mut e = String::from_str("cannot tell the container of ");
    e.append(output);
    e.append(" from its extension; give --format meta or --format pso");
    e
}

/// Decides the container: the one that is named, else the usual one of the
/// output's extension.
pub fn build_format(args: &BuildArgs, extension: &str) -> (r: Result<BuildFormat, String>)
    ensures
        match args.format {
            Some(name) => match r {
                Ok(f) => named_format(name@) == Some(f),
                Err(e) => named_format(name@) is None && e@ == "unknown format '"@ + name@
                    + "'; expected meta or pso"@,
            },
            None => match r {
                Ok(f) => usual_format(lowercase(extension@)) == Some(f),
                Err(e) => usual_format(lowercase(extension@)) is None && e@
                    == "cannot tell the container of "@ + args.output@
                    + " from its extension; give --format meta or --format pso"@,
            },
        },
{
    if let Some(name) = &args.format {
        let low = to_ascii_lowercase(name.as_str());
        return if same(low.as_str(), "meta") {
            Ok(BuildFormat::Meta)
        } else if same(low.as_str(), "pso") {
            Ok(BuildFormat::Pso)
        } else {
            Err(unknown_format(name.as_str()))
        };
    }
    let low = to_lowercase(extension);
    let ext = low.as_str();
    if same(ext, "ymap") || same(ext, "ytyp") || same(ext, "ymt") {
        Ok(BuildFormat::Meta)
    } else if same(ext, "ymf") || same(ext, "pso") {
        Ok(BuildFormat::Pso)
    } else {
        Err(unknown_container(args.output.as_str()))
    }
}

/// Whether a dump of the given extension is JSON; it is XML otherwise.
pub fn is_json(extension: &str) -> (r: bool)
    ensures
        r == (lowercase(extension@) == "json"@),
{
    let low = to_lowercase(extension);
    same(low.as_str(), "json")
}

/// The files whose structure definitions are used: the one that was named,
/// and the output where it exists already.
pub fn schema_sources(args: &BuildArgs, output_exists: bool) -> (out: Vec<String>)
    ensures
        out.len() == (if args.schema is Some {
            1int
        } else {
            0
        }) + (if output_exists {
            1int
        } else {
            0
        }),
        args.schema is Some ==> out[0]@ == args.schema->Some_0@,
        output_exists ==> out[out.len() - 1]@ == args.output@,
{
    let mut out: Vec<String> = Vec::new();
    if let Some(s) = &args.schema {
        out.push(s.clone());
    }
    if output_exists {
        out.push(args.output.clone());
    }
    out
}

/// Refuses a file that warnings were given of, where the caller wants none.
pub fn check_strict(strict: bool, warnings: usize) -> (r: Result<(), String>)
    ensures
        r is Err <==> strict && warnings > 0,
        r matches Err(e) ==> e@ == decimal(warnings as nat) + " warning(s) and --strict; nothing written"@,
{
    if strict && warnings > 0 {
        let mut e = decimal_of(warnings as u64);
        e.append(" warning(s) and --strict; nothing written");
        return Err(e);
    }
    Ok(())
}

/// What is said of a file that was written.
pub fn built_line(args: &BuildArgs, format: BuildFormat, bytes: usize, root: &str) -> (out: String)
    ensures
        out@ == "Wrote "@ + args.output@ + " ("@ + decimal(bytes as nat) + " bytes): "@ + format_name(
            format,
        ) + " from "@ + args.input@ + ", root "@ + root@,
{
    let mut out = String::from_str("Wrote ");
    out.append(args.output.as_str());
    out.append(" (");
    out.append(decimal_of(bytes as u64).as_str());
    out.append(" bytes): ");
    out.append(format.name());
    out.append(" from ");
    out.append(args.input.as_str());
    out.append(", root ");
    out.append(root);
    out
}

} // verus!
