//! The textual form of libraries.

use vstd::prelude::*;
use vstd::string::*;
use crate::ast::ty::Ty;
use crate::ord_map::Entry;
use crate::typelib::type_lib::{Dependency, LibRef, TypeLib};
use crate::util::TypeName;

verus! {

/// `n` spaces.
pub open spec fn spaces(n: int) -> Seq<char> {
    Seq::new(
        if n > 0 {
            n as nat
        } else {
            0
        },
        |i: int| ' ',
    )
}

/// A name in a column 16 characters wide: the name, and spaces behind it up
/// to that width.
pub open spec fn padded(name: Seq<char>) -> Seq<char> {
    name + spaces(16 - name.len())
}

impl Dependency {
    /// The textual form: `typelib`, the name, `@`, the version, and the
    /// identifier.
    pub open spec fn spec_text(&self) -> Seq<char> {
        "typelib "@ + self.name@ + "@"@ + self.ver.spec_text() + " "@ + self.id.spec_text()
    }

    /// Renders the textual form.
    pub fn to_string(&self) -> (s: String)
        ensures
            s@ == self.spec_text(),
    {
        let mut out = String::from_str("typelib ");
        out.append(self.name.as_str());
        out.append("@");
        let ver = self.ver.to_string();
        out.append(ver.as_str());
        out.append(" ");
        let id = self.id.to_string();
        out.append(id.as_str());
        out
    }
}

/// The line of a dependency: its textual form, then ` as ` and the alias
/// where the alias is not the name of the dependency.
pub open spec fn dependency_line(entry: Entry<Dependency>) -> Seq<char> {
    entry.value.spec_text() + (if entry.key@ != entry.value.name@ {
        " as "@ + entry.key@
    } else {
        Seq::empty()
    }) + "\n"@
}

/// The lines of the first `n` dependencies.
pub open spec fn dependency_lines(deps: Seq<Entry<Dependency>>, n: int) -> Seq<char>
    decreases n,
{
    if n <= 0 {
        Seq::empty()
    } else {
        dependency_lines(deps, n - 1) + dependency_line(deps[n - 1])
    }
}

/// The line of a type: `data`, the name in a column 16 wide, `::` and the
/// textual form of the type.
pub open spec fn type_line(entry: Entry<Ty<LibRef>>) -> Seq<char> {
    "data "@ + padded(entry.key@) + " :: "@ + entry.value.spec_text() + "\n"@
}

/// The lines of the first `n` types.
pub open spec fn type_lines(types: Seq<Entry<Ty<LibRef>>>, n: int) -> Seq<char>
    decreases n,
{
    if n <= 0 {
        Seq::empty()
    } else {
        type_lines(types, n - 1) + type_line(types[n - 1])
    }
}

/// The textual form of a library: a line `typemod` with the name, an empty
/// line, the lines of the dependencies or `-- no dependencies`, an empty
/// line, and the lines of the types.
pub open spec fn lib_text(
    name: Seq<char>,
    deps: Seq<Entry<Dependency>>,
    types: Seq<Entry<Ty<LibRef>>>,
) -> Seq<char> {
    "typemod "@ + name + "\n"@ + "\n"@ + (if deps.len() == 0 {
        "-- no dependencies\n"@
    } else {
        dependency_lines(deps, deps.len() as int)
    }) + "\n"@ + type_lines(types, types.len() as int)
}

/// Appends a name and the spaces that fill its column.
pub fn push_padded(out: &mut String, name: &TypeName)
    ensures
        final(out)@ == old(out)@ + padded(name@),
{
    out.append(name.as_str());
    let ghost head = out@;
    let len = name.len() as usize;
    let mut k: usize = len;
    while k < 16
        invariant
            len <= k,
            len == name@.len(),
            k <= 16 || k == len,
            out@ == head + spaces(k - len),
        decreases 16 - k,
    {
        out.append(" ");
        proof {
            reveal_strlit(" ");
        }
        assert(out@ =~= head + spaces(k + 1 - len));
        k += 1;
    }
    assert(out@ =~= old(out)@ + padded(name@));
}

impl TypeLib {
    /// The textual form of the library.
    pub open spec fn spec_text(&self) -> Seq<char> {
        lib_text(self.spec_name(), self.spec_dependencies(), self.spec_types())
    }

    /// Renders the textual form.
    pub fn to_string(&self) -> (s: String)
        ensures
            s@ == self.spec_text(),
    {
        let deps = self.dependencies();
        let types = self.types();
        let mut out = String::from_str("typemod ");
        out.append(self.name().as_str());
        out.append("\n");
        out.append("\n");
        let ghost head = out@;
        if deps.len() == 0 {
            out.append("-- no dependencies\n");
        }
        let mut i: usize = 0;
        while i < deps.len()
            invariant
                i <= deps@.len(),
                deps@.len() > 0 ==> out@ == head + dependency_lines(deps@, i as int),
                deps@.len() == 0 ==> out@ == head + "-- no dependencies\n"@,
            decreases deps@.len() - i,
        {
            let entry = deps.entry(i);
            let text = entry.value.to_string();
            out.append(text.as_str());
            if !entry.key.same(&entry.value.name) {
                out.append(" as ");
                out.append(entry.key.as_str());
            }
            out.append("\n");
            assert(out@ =~= head + dependency_lines(deps@, i + 1));
            i += 1;
        }
        out.append("\n");
        let ghost head = out@;
        let mut i: usize = 0;
        while i < types.len()
            invariant
                i <= types@.len(),
                out@ == head + type_lines(types@, i as int),
            decreases types@.len() - i,
        {
            let entry = types.entry(i);
            out.append("data ");
            push_padded(&mut out, &entry.key);
            out.append(" :: ");
            let text = entry.value.to_string();
            out.append(text.as_str());
            out.append("\n");
            assert(out@ =~= head + type_lines(types@, i + 1));
            i += 1;
        }
        assert(out@ =~= self.spec_text());
        out
    }
}

} // verus!
