//! The property catalog: per-class attribute templates applied at mint time,
//! and the text identifier recorded for each minted token.
use vstd::prelude::*;
use crate::types::{GeneralValue, TokenIdentifier};

verus! {

/// The template of one class of tokens.
pub struct PropMetadata {
    calss: String,
    desc: String,
    image_uri: String,
}

impl PropMetadata {
    pub closed spec fn spec_class(&self) -> String {
        self.calss
    }

    pub closed spec fn spec_desc(&self) -> String {
        self.desc
    }

    pub closed spec fn spec_image_uri(&self) -> String {
        self.image_uri
    }

    /// A template from its three fields.
    pub fn from_parts(class: String, desc: String, image_uri: String) -> (r: PropMetadata)
        ensures
            r.spec_class() == class,
            r.spec_desc() == desc,
            r.spec_image_uri() == image_uri,
    {
        PropMetadata { calss: class, desc, image_uri }
    }

    pub fn class(&self) -> (r: &String)
        ensures
            *r == self.spec_class(),
    {
        &self.calss
    }

    pub fn desc(&self) -> (r: &String)
        ensures
            *r == self.spec_desc(),
    {
        &self.desc
    }

    pub fn image_uri(&self) -> (r: &String)
        ensures
            *r == self.spec_image_uri(),
    {
        &self.image_uri
    }

    /// A copy of this template.
    pub fn duplicate(&self) -> (r: PropMetadata)
        ensures
            r == *self,
    {
        PropMetadata {
            calss: self.calss.clone(),
            desc: self.desc.clone(),
            image_uri: self.image_uri.clone(),
        }
    }
}

/// Runs `f` on the catalog.
pub fn with<T, F: FnOnce(&Vec<PropMetadata>) -> T>(props: &Vec<PropMetadata>, f: F) -> (r: T)
    requires
        f.requires((props,)),
    ensures
        f.ensures((props,), r),
{
    f(props)
}

/// A copy of the catalog.
pub fn prop_info(props: &Vec<PropMetadata>) -> (r: Vec<PropMetadata>)
    ensures
        r@ == props@,
{
    let mut v: Vec<PropMetadata> = Vec::new();
    let mut i: usize = 0;
    while i < props.len()
        invariant
            i <= props@.len(),
            v@ == props@.subrange(0, i as int),
        decreases props@.len() - i,
    {
        v.push(props[i].duplicate());
        i = i + 1;
        assert(v@ =~= props@.subrange(0, i as int));
    }
    assert(props@.subrange(0, props@.len() as int) =~= props@);
    v
}

/// Appends the saved templates `prop_info` to the catalog.
pub fn restore_prop_info(props: &mut Vec<PropMetadata>, prop_info: Vec<PropMetadata>)
    ensures
        final(props)@ == old(props)@ + prop_info@,
{
    let mut saved = prop_info;
    props.append(&mut saved);
}

/// Appends the initial templates `prop_vec` to the catalog.
pub fn init_prop_info(props: &mut Vec<PropMetadata>, prop_vec: Vec<PropMetadata>)
    ensures
        final(props)@ == old(props)@ + prop_vec@,
{
    let mut i: usize = 0;
    while i < prop_vec.len()
        invariant
            i <= prop_vec@.len(),
            props@ == old(props)@ + prop_vec@.subrange(0, i as int),
        decreases prop_vec@.len() - i,
    {
        props.push(prop_vec[i].duplicate());
        i = i + 1;
        assert(props@ =~= old(props)@ + prop_vec@.subrange(0, i as int));
    }
    assert(prop_vec@.subrange(0, prop_vec@.len() as int) =~= prop_vec@);
}

/// The position of the first template of class `class`, if any.
pub open spec fn first_of_class(props: Seq<PropMetadata>, class: String) -> Option<int>
    decreases props.len(),
{
    if props.len() == 0 {
        None
    } else if props[0].spec_class()@ == class@ {
        Some(0)
    } else {
        match first_of_class(props.drop_first(), class) {
            Some(i) => Some(i + 1),
            None => None,
        }
    }
}

/// The attributes a token of class `class` is minted with: the class,
/// description and image of its first template, or none.
pub open spec fn class_properties(props: Seq<PropMetadata>, class: String) -> Seq<(Seq<char>, Seq<char>)> {
    match first_of_class(props, class) {
        Some(i) => seq![
            ("class"@, props[i].spec_class()@),
            ("desc"@, props[i].spec_desc()@),
            ("imageUri"@, props[i].spec_image_uri()@),
        ],
        None => Seq::empty(),
    }
}

/// The view of an attribute bag whose values are all text.
pub open spec fn text_properties(v: Seq<(String, GeneralValue)>) -> Option<Seq<(Seq<char>, Seq<char>)>> {
    if forall|k: int| 0 <= k < v.len() ==> v[k].1 is TextContent {
        Some(Seq::new(v.len(), |k: int| (v[k].0@, v[k].1->TextContent_0@)))
    } else {
        None
    }
}

proof fn lemma_first_of_class(props: Seq<PropMetadata>, class: String, i: int)
    requires
        0 <= i <= props.len(),
        forall|j: int| 0 <= j < i ==> props[j].spec_class()@ != class@,
    ensures
        i < props.len() && props[i].spec_class()@ == class@ ==> first_of_class(props, class) == Some(i),
        i == props.len() ==> first_of_class(props, class) is None,
    decreases i,
{
    if i > 0 {
        lemma_first_of_class(props.drop_first(), class, i - 1);
    }
}

/// The attributes of a token of class `class` minted from the catalog.
pub fn properties_for_class(props: &Vec<PropMetadata>, class: &String) -> (r: Vec<(String, GeneralValue)>)
    ensures
        text_properties(r@) == Some(class_properties(props@, *class)),
{
    let mut i: usize = 0;
    while i < props.len()
        invariant
            i <= props@.len(),
            forall|j: int| 0 <= j < i ==> props@[j].spec_class()@ != class@,
        decreases props@.len() - i,
    {
        let p = &props[i];
        if *p.class() == *class {
            proof {
                lemma_first_of_class(props@, *class, i as int);
            }
            let mut v: Vec<(String, GeneralValue)> = Vec::new();
            v.push(("class".to_owned(), GeneralValue::TextContent(p.class().clone())));
            v.push(("desc".to_owned(), GeneralValue::TextContent(p.desc().clone())));
            v.push(("imageUri".to_owned(), GeneralValue::TextContent(p.image_uri().clone())));
            assert(text_properties(v@)->Some_0 =~= class_properties(props@, *class));
            return v;
        }
        i = i + 1;
    }
    proof {
        lemma_first_of_class(props@, *class, i as int);
    }
    let v: Vec<(String, GeneralValue)> = Vec::new();
    assert(text_properties(v@)->Some_0 =~= class_properties(props@, *class));
    v
}

/// The text identifier recorded for each minted token, the latest one first.
pub struct TokenTexts {
    entries: Vec<(TokenIdentifier, String)>,
}

/// The text most lately recorded for `id` in `s`.
pub open spec fn latest_text(s: Seq<(TokenIdentifier, String)>, id: TokenIdentifier) -> Option<String>
    decreases s.len(),
{
    if s.len() == 0 {
        None
    } else if s.last().0 == id {
        Some(s.last().1)
    } else {
        latest_text(s.drop_last(), id)
    }
}

impl TokenTexts {
    /// The text recorded for `id`, if any.
    pub closed spec fn text_of(&self, id: TokenIdentifier) -> Option<String> {
        latest_text(self.entries@, id)
    }

    /// A record with no texts.
    pub fn new() -> (r: TokenTexts)
        ensures
            forall|id: TokenIdentifier| r.text_of(id) is None,
    {
        TokenTexts { entries: Vec::new() }
    }
}

/// Records `prop` as the text identifier of token `id`.
pub fn add_token(texts: &mut TokenTexts, id: &TokenIdentifier, prop: &String)
    ensures
        final(texts).text_of(*id) == Some(*prop),
        forall|other: TokenIdentifier| other != *id ==> final(texts).text_of(other) == old(texts).text_of(other),
{
    texts.entries.push((*id, prop.clone()));
    assert(texts.entries@.drop_last() == old(texts).entries@);
}

/// The text identifier of token `id`, or the empty text.
pub fn tokens(texts: &TokenTexts, id: &TokenIdentifier) -> (r: String)
    ensures
        match texts.text_of(*id) {
            Some(t) => r == t,
            None => r@ == Seq::<char>::empty(),
        },
{
    let s = &texts.entries;
    let mut i: usize = s.len();
    assert(s@.subrange(0, i as int) =~= s@);
    assert(texts.text_of(*id) == latest_text(s@, *id));
    while i > 0
        invariant
            i <= s@.len(),
            latest_text(s@, *id) == latest_text(s@.subrange(0, i as int), *id),
            texts.text_of(*id) == latest_text(s@, *id),
        decreases i,
    {
        assert(s@.subrange(0, i - 1) =~= s@.subrange(0, i as int).drop_last());
        if s[i - 1].0 == *id {
            let ghost pre = s@.subrange(0, i as int);
            assert(pre.last() == s@[i - 1]);
            assert(latest_text(pre, *id) == Some(s@[i - 1].1));
            let t = s[i - 1].1.clone();
            assert(t == s@[i - 1].1);
            return t;
        }
        i = i - 1;
    }
    String::new()
}

} // verus!
