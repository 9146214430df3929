//! The textual form of types.

use vstd::prelude::*;
use vstd::string::*;
use crate::ast::ty::{tags_of, Field, KeyTy, Tag, Tagged, Ty};
use crate::render::{decimal, push_decimal};

verus! {

/// A reference that has a textual form.
pub trait RefText: Sized {
    /// The textual form of the reference: a name, or the type that it holds.
    spec fn spec_text(&self) -> Seq<char>;

    fn to_string(&self) -> (s: String)
        ensures
            s@ == self.spec_text(),
    ;
}

/// How an item shows in a list of items: by its name, or by its ordinal
/// where it has no name.
pub open spec fn tag_label(tag: Tag) -> Seq<char> {
    match tag.name {
        Some(n) => n,
        None => decimal(tag.ord as nat),
    }
}

/// No item has a name.
pub open spec fn all_unnamed(tags: Seq<Tag>) -> bool {
    forall|i: int| 0 <= i < tags.len() ==> (#[trigger] tags[i]).name is None
}

/// The labels of the first `n` items, with ` | ` between them.
pub open spec fn labels_text(tags: Seq<Tag>, n: int) -> Seq<char>
    decreases n,
{
    if n <= 0 {
        Seq::empty()
    } else if n == 1 {
        tag_label(tags[0])
    } else {
        labels_text(tags, n - 1) + " | "@ + tag_label(tags[n - 1])
    }
}

/// One item among fields or alternatives: its type, behind its label and
/// ` : ` where labels are shown.
pub open spec fn item_text(tags: Seq<Tag>, texts: Seq<Seq<char>>, labels: bool, i: int) -> Seq<
    char,
> {
    if labels {
        tag_label(tags[i]) + " : "@ + texts[i]
    } else {
        texts[i]
    }
}

/// The first `n` items, with `sep` between them.
pub open spec fn items_text(
    tags: Seq<Tag>,
    texts: Seq<Seq<char>>,
    labels: bool,
    sep: Seq<char>,
    n: int,
) -> Seq<char>
    decreases n,
{
    if n <= 0 {
        Seq::empty()
    } else if n == 1 {
        item_text(tags, texts, labels, 0)
    } else {
        items_text(tags, texts, labels, sep, n - 1) + sep + item_text(tags, texts, labels, n - 1)
    }
}

/// Fields or alternatives: `(t1, t2)` where none has a name, `{ a : t1, b :
/// t2 }` otherwise, with `sep` between the items.
pub open spec fn composite_text(tags: Seq<Tag>, texts: Seq<Seq<char>>, sep: Seq<char>) -> Seq<
    char,
> {
    if all_unnamed(tags) {
        "("@ + items_text(tags, texts, false, sep, tags.len() as int) + ")"@
    } else {
        "{ "@ + items_text(tags, texts, true, sep, tags.len() as int) + " }"@
    }
}

/// Appends the label of an item.
fn push_label<T: Tagged>(out: &mut String, item: &T)
    ensures
        final(out)@ == old(out)@ + tag_label(item.tag()),
{
    match item.name() {
        Some(n) => {
            out.append(n.as_str());
        },
        None => {
            push_decimal(out, item.ord() as u128);
        },
    }
}

/// Whether no item has a name.
fn none_named<T: Tagged>(items: &Vec<T>) -> (r: bool)
    ensures
        r == all_unnamed(tags_of(items@)),
{
    let mut i: usize = 0;
    while i < items.len()
        invariant
            i <= items.len(),
            forall|j: int| 0 <= j < i ==> (#[trigger] tags_of(items@)[j]).name is None,
        decreases items.len() - i,
    {
        if items[i].name().is_some() {
            assert(tags_of(items@)[i as int].name is Some);
            return false;
        }
        i += 1;
    }
    true
}

/// Renders fields or alternatives.
fn composite_string<T: Tagged>(items: &Vec<T>, texts: &Vec<String>, sep: &str) -> (s: String)
    requires
        texts@.len() == items@.len(),
    ensures
        s@ == composite_text(tags_of(items@), texts@.map_values(|t: String| t@), sep@),
{
    let ghost tags = tags_of(items@);
    let ghost views = texts@.map_values(|t: String| t@);
    let plain = none_named(items);
    let mut out = if plain {
        String::from_str("(")
    } else {
        String::from_str("{ ")
    };
    let ghost head = out@;
    let mut i: usize = 0;
    while i < items.len()
        invariant
            i <= items.len(),
            texts@.len() == items@.len(),
            tags == tags_of(items@),
            views == texts@.map_values(|t: String| t@),
            out@ == head + items_text(tags, views, !plain, sep@, i as int),
        decreases items.len() - i,
    {
        let ghost before = out@;
        if i > 0 {
            out.append(sep);
        }
        if !plain {
            push_label(&mut out, &items[i]);
            out.append(" : ");
        }
        out.append(texts[i].as_str());
        assert(out@ =~= head + items_text(tags, views, !plain, sep@, i + 1));
        i += 1;
    }
    if plain {
        out.append(")");
    } else {
        out.append(" }");
    }
    out
}

impl KeyTy {
    /// The textual form: that of the type that the key type stands for.
    pub open spec fn spec_text(&self) -> Seq<char> {
        match self {
            KeyTy::Primitive(p) => p.spec_code_text(),
            KeyTy::Array(len) => "u8["@ + decimal(*len as nat) + "]"@,
            KeyTy::UnicodeStr(sizing) => "Unicode"@ + sizing.spec_suffix(),
            KeyTy::AsciiStr(sizing) => "Ascii"@ + sizing.spec_suffix(),
            KeyTy::Bytes(sizing) => "[u8]"@ + sizing.spec_suffix(),
        }
    }

    /// Renders the textual form.
    pub fn to_string(&self) -> (s: String)
        ensures
            s@ == self.spec_text(),
    {
        match self {
            KeyTy::Primitive(p) => String::from_str(p.code_str()),
            KeyTy::Array(len) => {
                let mut out = String::from_str("u8[");
                push_decimal(&mut out, *len as u128);
                out.append("]");
                out
            },
            KeyTy::UnicodeStr(sizing) => {
                let mut out = String::from_str("Unicode");
                let suffix = sizing.to_string();
                out.append(suffix.as_str());
                out
            },
            KeyTy::AsciiStr(sizing) => {
                let mut out = String::from_str("Ascii");
                let suffix = sizing.to_string();
                out.append(suffix.as_str());
                out
            },
            KeyTy::Bytes(sizing) => {
                let mut out = String::from_str("[u8]");
                let suffix = sizing.to_string();
                out.append(suffix.as_str());
                out
            },
        }
    }
}

impl RefText for KeyTy {
    open spec fn spec_text(&self) -> Seq<char> {
        KeyTy::spec_text(self)
    }

    fn to_string(&self) -> (s: String) {
        KeyTy::to_string(self)
    }
}

/// The textual forms of the references in `refs`, in their order.
pub open spec fn ref_texts<R: RefText>(refs: Seq<R>) -> Seq<Seq<char>> {
    refs.map_values(|r: R| r.spec_text())
}

impl<R> Ty<R> {
    /// The textual form of the type, where `texts` holds the textual forms
    /// of the nested types in the order of `refs`:
    /// a primitive by its code; an enumeration as `(a | b)`; a union as its
    /// alternatives with ` | ` between them; a structure as its fields with
    /// `, ` between them; an array as `T[len]`; a list as `[T]`, a set as
    /// `{T}` and a map as `{K} -> V`, each with the suffix of its sizing; a
    /// unicode string as `Unicode` with that suffix.
    pub open spec fn text_with(&self, texts: Seq<Seq<char>>) -> Seq<char> {
        match self {
            Ty::Primitive(p) => p.spec_code_text(),
            Ty::Enum(variants) => "("@ + labels_text(self.tags(), variants@.len() as int) + ")"@,
            Ty::Union(_) => composite_text(self.tags(), texts, " | "@),
            Ty::Struct(_) => composite_text(self.tags(), texts, ", "@),
            Ty::Array(_, len) => texts[0] + "["@ + decimal(*len as nat) + "]"@,
            Ty::List(_, sizing) => "["@ + texts[0] + "]"@ + sizing.spec_suffix(),
            Ty::SetOf(_, sizing) => "{"@ + texts[0] + "}"@ + sizing.spec_suffix(),
            Ty::MapOf(key, _, sizing) => "{"@ + key.spec_text() + "} -> "@ + texts[0]
                + sizing.spec_suffix(),
            Ty::Unicode(sizing) => "Unicode"@ + sizing.spec_suffix(),
        }
    }

    /// Renders the type from the textual forms of the nested types.
    pub fn string_with(&self, texts: &Vec<String>) -> (s: String)
        requires
            texts@.len() == self.refs().len(),
        ensures
            s@ == self.text_with(texts@.map_values(|t: String| t@)),
    {
        let ghost views = texts@.map_values(|t: String| t@);
        match self {
            Ty::Primitive(p) => String::from_str(p.code_str()),
            Ty::Enum(variants) => {
                let mut out = String::from_str("(");
                let ghost tags = tags_of(variants@);
                let mut i: usize = 0;
                while i < variants.len()
                    invariant
                        i <= variants.len(),
                        tags == tags_of(variants@),
                        out@ == "("@ + labels_text(tags, i as int),
                    decreases variants.len() - i,
                {
                    if i > 0 {
                        out.append(" | ");
                    }
                    push_label(&mut out, &variants[i]);
                    assert(out@ =~= "("@ + labels_text(tags, i + 1));
                    i += 1;
                }
                out.append(")");
                out
            },
            Ty::Union(fields) => composite_string(fields, texts, " | "),
            Ty::Struct(fields) => composite_string(fields, texts, ", "),
            Ty::Array(_, len) => {
                let mut out = texts[0].clone();
                out.append("[");
                push_decimal(&mut out, *len as u128);
                out.append("]");
                assert(out@ =~= self.text_with(views));
                out
            },
            Ty::List(_, sizing) => {
                let mut out = String::from_str("[");
                out.append(texts[0].as_str());
                out.append("]");
                let suffix = sizing.to_string();
                out.append(suffix.as_str());
                assert(out@ =~= self.text_with(views));
                out
            },
            Ty::SetOf(_, sizing) => {
                let mut out = String::from_str("{");
                out.append(texts[0].as_str());
                out.append("}");
                let suffix = sizing.to_string();
                out.append(suffix.as_str());
                assert(out@ =~= self.text_with(views));
                out
            },
            Ty::MapOf(key, _, sizing) => {
                let mut out = String::from_str("{");
                let key_text = key.to_string();
                out.append(key_text.as_str());
                out.append("} -> ");
                out.append(texts[0].as_str());
                let suffix = sizing.to_string();
                out.append(suffix.as_str());
                assert(out@ =~= self.text_with(views));
                out
            },
            Ty::Unicode(sizing) => {
                let mut out = String::from_str("Unicode");
                let suffix = sizing.to_string();
                out.append(suffix.as_str());
                out
            },
        }
    }
}

/// Collects the textual forms of the types of `fields`.
fn field_texts<R: RefText>(fields: &Vec<Field<R>>) -> (texts: Vec<String>)
    ensures
        texts@.map_values(|t: String| t@) == ref_texts(fields@.map_values(|f: Field<R>| f.ty)),
{
    let mut texts: Vec<String> = Vec::new();
    let mut i: usize = 0;
    while i < fields.len()
        invariant
            i <= fields.len(),
            texts@.len() == i,
            forall|j: int| 0 <= j < i ==> texts@[j]@ == fields@[j].ty.spec_text(),
        decreases fields.len() - i,
    {
        texts.push(fields[i].ty.to_string());
        i += 1;
    }
    assert(texts@.map_values(|t: String| t@) =~= ref_texts(
        fields@.map_values(|f: Field<R>| f.ty),
    ));
    texts
}

impl<R: RefText> Ty<R> {
    /// The textual form of the type.
    pub open spec fn spec_text(&self) -> Seq<char> {
        self.text_with(ref_texts(self.refs()))
    }

    /// Renders the textual form.
    pub fn to_string(&self) -> (s: String)
        ensures
            s@ == self.spec_text(),
    {
        let texts = match self {
            Ty::Union(fields) => field_texts(fields),
            Ty::Struct(fields) => field_texts(fields),
            Ty::Array(r, _) => {
                let mut texts: Vec<String> = Vec::new();
                texts.push(r.to_string());
                texts
            },
            Ty::List(r, _) => {
                let mut texts: Vec<String> = Vec::new();
                texts.push(r.to_string());
                texts
            },
            Ty::SetOf(r, _) => {
                let mut texts: Vec<String> = Vec::new();
                texts.push(r.to_string());
                texts
            },
            Ty::MapOf(_, r, _) => {
                let mut texts: Vec<String> = Vec::new();
                texts.push(r.to_string());
                texts
            },
            _ => Vec::new(),
        };
        assert(texts@.map_values(|t: String| t@) =~= ref_texts(self.refs()));
        self.string_with(&texts)
    }
}

} // verus!
