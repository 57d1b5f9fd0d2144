use vstd::prelude::*;
use vstd::string::*;

use crate::display::{header, write_header, DisplayOptions, SourceInfo};
use crate::loc::{fits, Loc};
use crate::reporter::Message;

verus! {

/// The source texts of a session, each indexed once and known by the dense
/// identifier it got when it was registered.  Entries are never removed or
/// changed.
pub struct SourceLibrary<'a> {
    files: Vec<SourceInfo<'a>>,
}

impl<'a> View for SourceLibrary<'a> {
    type V = Seq<SourceInfo<'a>>;

    closed spec fn view(&self) -> Seq<SourceInfo<'a>> {
        self.files@
    }
}

impl<'a> SourceLibrary<'a> {
    pub open spec fn wf(&self) -> bool {
        forall|i: int| 0 <= i < self@.len() ==> (#[trigger] self@[i]).wf()
    }

    /// The text a span refers to: the one it names, or the only one.
    pub open spec fn source_of(loc: Loc) -> int {
        match loc.file {
            Some(id) => id as int,
            None => 0,
        }
    }

    /// Whether `loc` can be shown: it names a registered text, or names none
    /// while exactly one text is registered, and it fits that text.
    pub open spec fn locates(&self, loc: Loc) -> bool {
        &&& match loc.file {
            Some(id) => id < self@.len(),
            None => self@.len() == 1,
        }
        &&& fits(loc, self@[Self::source_of(loc)].bytes())
    }

    /// Whether the span of `m`, if it has one, can be shown.
    pub open spec fn can_show(&self, m: Message) -> bool {
        match m {
            Message::Error(e) => match e.loc {
                Some(loc) => self.locates(loc),
                None => true,
            },
            Message::Info(_) => true,
        }
    }

    /// The text of one message, its excerpt taken from the text its span
    /// refers to.
    pub open spec fn rendered(&self, m: Message, opts: DisplayOptions) -> Seq<char> {
        header(m) + match m {
            Message::Error(e) => match e.loc {
                Some(loc) => self@[Self::source_of(loc)].excerpt(loc, opts),
                None => Seq::empty(),
            },
            Message::Info(_) => Seq::empty(),
        }
    }

    pub fn new() -> (r: Self)
        ensures
            r.wf(),
            r@ == Seq::<SourceInfo<'a>>::empty(),
    {
        SourceLibrary { files: Vec::new() }
    }

    /// Indexes `text` and registers it; the identifier returned is the
    /// number of texts registered before.
    pub fn register(&mut self, name: Option<&'a str>, text: &'a str) -> (id: usize)
        requires
            old(self).wf(),
            text.spec_bytes().len() < usize::MAX,
        ensures
            final(self).wf(),
            id == old(self)@.len(),
            final(self)@.len() == old(self)@.len() + 1,
            forall|i: int| 0 <= i < id ==> final(self)@[i] == old(self)@[i],
            final(self)@[id as int].bytes() == text.spec_bytes(),
            final(self)@[id as int].name_opt() == match name {
                Some(s) => Some(s@),
                None => None::<Seq<char>>,
            },
    {
        let id = self.files.len();
        let info = SourceInfo::new(name, text);
        self.files.push(info);
        assert forall|i: int| 0 <= i < self@.len() implies (#[trigger] self@[i]).wf() by {
            if i < id {
                assert(self@[i] == old(self)@[i]);
            }
        }
        id
    }

    /// The text registered as `id`.
    pub fn resolve(&self, id: usize) -> (r: &SourceInfo<'a>)
        requires
            id < self@.len(),
        ensures
            *r == self@[id as int],
    {
        &self.files[id]
    }

    /// Appends the text of one message, its excerpt taken from the text its
    /// span refers to.
    pub fn write_fmt(&self, w: &mut String, m: &Message, options: DisplayOptions)
        requires
            self.wf(),
            self.can_show(*m),
        ensures
            final(w)@ == old(w)@ + self.rendered(*m, options),
    {
        write_header(w, m);
        match m {
            Message::Error(e) => {
                if let Some(loc) = e.loc {
                    let id = match loc.file {
                        Some(id) => id,
                        None => 0,
                    };
                    self.files[id].show_source(loc, w, options);
                }
            },
            Message::Info(_) => {},
        }
        assert(w@ =~= old(w)@ + self.rendered(*m, options));
    }
}

} // verus!
