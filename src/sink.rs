use vstd::prelude::*;

verus! {

/// `n` space characters.
pub open spec fn spaces(n: nat) -> Seq<char> {
    Seq::new(n, |i: int| ' ')
}

/// One output line: `indent` spaces, the text, and a line break.
pub open spec fn line(indent: nat, text: Seq<char>) -> Seq<char> {
    spaces(indent) + text + seq!['\n']
}

/// `text` without its last character when that character is a line break.
pub open spec fn trim_newline(text: Seq<char>) -> Seq<char> {
    if text.len() > 0 && text.last() == '\n' {
        text.drop_last()
    } else {
        text
    }
}

/// Relies on `String::pop`: it removes the last character and returns it, or
/// returns `None` and leaves the string alone when it is empty.
#[verifier::external_body]
fn pop_char(s: &mut String) -> (r: Option<char>)
    ensures
        old(s)@.len() == 0 ==> r is None && final(s)@ == old(s)@,
        old(s)@.len() > 0 ==> r == Some(old(s)@.last()) && final(s)@ == old(s)@.drop_last(),
{
    s.pop()
}

/// The growing text of one compilation: written at its end, and trimmed at
/// its end.
pub struct OutputSink {
    text: String,
}

impl View for OutputSink {
    type V = Seq<char>;

    closed spec fn view(&self) -> Seq<char> {
        self.text@
    }
}

impl OutputSink {
    pub fn new() -> (r: OutputSink)
        ensures
            r@ == Seq::<char>::empty(),
    {
        OutputSink { text: String::new() }
    }

    /// Appends `s` at the end.
    pub fn append(&mut self, s: &str)
        ensures
            final(self)@ == old(self)@ + s@,
    {
        self.text.append(s);
    }

    /// Appends one line: `indent` spaces, `text` and a line break.
    pub fn write_line(&mut self, indent: usize, text: &str)
        ensures
            final(self)@ == old(self)@ + line(indent as nat, text@),
    {
        let ghost start = self@;
        let mut i: usize = 0;
        while i < indent
            invariant
                i <= indent,
                self@ == start + spaces(i as nat),
            decreases indent - i,
        {
            self.text.append(" ");
            proof {
                reveal_strlit(" ");
                assert(spaces((i + 1) as nat) =~= spaces(i as nat) + " "@);
            }
            i = i + 1;
        }
        self.text.append(text);
        self.text.append("\n");
        proof {
            reveal_strlit("\n");
            assert(self@ =~= start + line(indent as nat, text@));
        }
    }

    /// Removes one line break from the end of the whole text, if the text ends
    /// with one.
    pub fn trim_trailing_newline(&mut self)
        ensures
            final(self)@ == trim_newline(old(self)@),
    {
        let n = self.text.as_str().unicode_len();
        if n > 0 && self.text.as_str().get_char(n - 1) == '\n' {
            let _ = pop_char(&mut self.text);
        }
    }

    /// The text written so far.
    pub fn as_str(&self) -> (r: &str)
        ensures
            r@ == self@,
    {
        self.text.as_str()
    }

    /// Gives up the sink and returns its text.
    pub fn into_string(self) -> (r: String)
        ensures
            r@ == self@,
    {
        self.text
    }
}

} // verus!
