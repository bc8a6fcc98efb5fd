//! Documents of nested values, in which the order of keys matters.
use vstd::prelude::*;

verus! {

/// A nested value.
#[derive(Debug)]
pub enum Document {
    Null,
    Bool(bool),
    Unsigned(u64),
    Signed(i64),
    Text(String),
    List(Vec<Document>),
    Object(Vec<(String, Document)>),
}

/// What a [`Document`] holds.
pub enum DocumentView {
    Null,
    Bool(bool),
    Number(int),
    Text(Seq<char>),
    List(Seq<DocumentView>),
    Object(Seq<(Seq<char>, DocumentView)>),
}

impl Document {
    /// What the document holds.
    pub open spec fn holds(self) -> DocumentView
        decreases self,
    {
        match self {
            Document::Null => DocumentView::Null,
            Document::Bool(b) => DocumentView::Bool(b),
            Document::Unsigned(n) => DocumentView::Number(n as int),
            Document::Signed(n) => DocumentView::Number(n as int),
            Document::Text(s) => DocumentView::Text(s@),
            Document::List(v) => DocumentView::List(
                Seq::new(
                    v@.len(),
                    |i: int|
                        if 0 <= i < v@.len() {
                            v@[i].holds()
                        } else {
                            DocumentView::Null
                        },
                ),
            ),
            Document::Object(v) => DocumentView::Object(
                Seq::new(
                    v@.len(),
                    |i: int|
                        if 0 <= i < v@.len() {
                            (v@[i].0@, v@[i].1.holds())
                        } else {
                            (Seq::empty(), DocumentView::Null)
                        },
                ),
            ),
        }
    }
}

/// What the fields of an object hold.
pub open spec fn fields_hold(v: Seq<(String, Document)>) -> Seq<(Seq<char>, DocumentView)> {
    Seq::new(v.len(), |i: int| (v[i].0@, v[i].1.holds()))
}

/// The texts as a list.
pub open spec fn text_list(texts: Seq<Seq<char>>) -> DocumentView {
    DocumentView::List(Seq::new(texts.len(), |i: int| DocumentView::Text(texts[i])))
}

/// A number, or null.
pub open spec fn opt_number(n: Option<u64>) -> DocumentView {
    match n {
        Some(n) => DocumentView::Number(n as int),
        None => DocumentView::Null,
    }
}

/// The fields of an object in the making. Its view is what they hold.
pub struct Fields {
    pairs: Vec<(String, Document)>,
}

impl View for Fields {
    type V = Seq<(Seq<char>, DocumentView)>;

    closed spec fn view(&self) -> Seq<(Seq<char>, DocumentView)> {
        fields_hold(self.pairs@)
    }
}

impl Fields {
    pub fn new() -> (r: Self)
        ensures
            r@ == Seq::<(Seq<char>, DocumentView)>::empty(),
    {
        let r = Fields { pairs: Vec::new() };
        proof {
            assert(r@ =~= Seq::<(Seq<char>, DocumentView)>::empty());
        }
        r
    }

    /// Adds a field behind the others.
    pub fn put(&mut self, key: &str, value: Document)
        ensures
            final(self)@ == old(self)@.push((key@, value.holds())),
    {
        self.pairs.push((key.to_owned(), value));
        proof {
            assert(self@ =~= old(self)@.push((key@, value.holds())));
        }
    }

    /// Adds a text.
    pub fn put_text(&mut self, key: &str, value: &str)
        ensures
            final(self)@ == old(self)@.push((key@, DocumentView::Text(value@))),
    {
        self.put(key, Document::Text(value.to_owned()));
    }

    /// Adds a number.
    pub fn put_number(&mut self, key: &str, value: u64)
        ensures
            final(self)@ == old(self)@.push((key@, DocumentView::Number(value as int))),
    {
        self.put(key, Document::Unsigned(value));
    }

    /// Adds a truth value.
    pub fn put_bool(&mut self, key: &str, value: bool)
        ensures
            final(self)@ == old(self)@.push((key@, DocumentView::Bool(value))),
    {
        self.put(key, Document::Bool(value));
    }

    /// The object of these fields.
    pub fn object(self) -> (r: Document)
        ensures
            r.holds() == DocumentView::Object(self@),
    {
        let r = Document::Object(self.pairs);
        proof {
            let held = r.holds()->Object_0;
            assert(held =~= self@);
        }
        r
    }
}

/// A list of texts.
pub fn list_of(texts: &Vec<String>) -> (r: Document)
    ensures
        r.holds() == text_list(crate::csv_text::string_views(texts@)),
{
    let mut items: Vec<Document> = Vec::new();
    let mut i: usize = 0;
    while i < texts.len()
        invariant
            i <= texts@.len(),
            items@.len() == i,
            forall|k: int|
                0 <= k < i ==> (#[trigger] items@[k]).holds() == DocumentView::Text(texts@[k]@),
        decreases texts@.len() - i,
    {
        items.push(Document::Text(texts[i].clone()));
        i = i + 1;
    }
    let r = Document::List(items);
    proof {
        let want = text_list(crate::csv_text::string_views(texts@))->List_0;
        assert(r.holds()->List_0 =~= want);
    }
    r
}

} // verus!
