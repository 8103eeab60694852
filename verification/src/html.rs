use vstd::prelude::*;
use crate::strutil::str_to_chars;

verus! {

/// What the encoder emits for one character: an entity for the five
/// escaped characters, the character itself for every other.
pub open spec fn ent_seq(c: char) -> Seq<char> {
    if c == '"' {
        "&quot;"@
    } else if c == '&' {
        "&amp;"@
    } else if c == '\'' {
        "&#x27;"@
    } else if c == '<' {
        "&lt;"@
    } else if c == '>' {
        "&gt;"@
    } else {
        seq![c]
    }
}

/// The text with every escaped character replaced by its entity.
pub open spec fn encode_seq(s: Seq<char>) -> Seq<char>
    decreases s.len(),
{
    if s.len() == 0 {
        Seq::empty()
    } else {
        encode_seq(s.drop_last()) + ent_seq(s.last())
    }
}

/// The entity name, without `&` and `;`, for a character the encoder
/// escapes.
pub fn get_entity(c: char) -> (r: Option<&'static str>)
    ensures
        match r {
            Some(e) => ent_seq(c) == seq!['&'] + e@ + seq![';'],
            None => ent_seq(c) == seq![c],
        },
{
    match c {
        '"' => {
            proof {
                reveal_strlit("&quot;");
                reveal_strlit("quot");
                assert(ent_seq('"') =~= seq!['&'] + "quot"@ + seq![';']);
            }
            Some("quot")
        },
        '&' => {
            proof {
                reveal_strlit("&amp;");
                reveal_strlit("amp");
                assert(ent_seq('&') =~= seq!['&'] + "amp"@ + seq![';']);
            }
            Some("amp")
        },
        '\'' => {
            proof {
                reveal_strlit("&#x27;");
                reveal_strlit("#x27");
                assert(ent_seq('\'') =~= seq!['&'] + "#x27"@ + seq![';']);
            }
            Some("#x27")
        },
        '<' => {
            proof {
                reveal_strlit("&lt;");
                reveal_strlit("lt");
                assert(ent_seq('<') =~= seq!['&'] + "lt"@ + seq![';']);
            }
            Some("lt")
        },
        '>' => {
            proof {
                reveal_strlit("&gt;");
                reveal_strlit("gt");
                assert(ent_seq('>') =~= seq!['&'] + "gt"@ + seq![';']);
            }
            Some("gt")
        },
        _ => None,
    }
}

/// Appends the encoded form of `s`.
pub fn encode_into(out: &mut String, s: &str)
    ensures
        final(out)@ == old(out)@ + encode_seq(s@),
{
    let chars = str_to_chars(s);
    let mut i: usize = 0;
    proof {
        assert(s@.take(0) =~= Seq::<char>::empty());
        assert(out@ =~= old(out)@ + encode_seq(s@.take(0)));
    }
    while i < chars.len()
        invariant
            i <= chars.len(),
            chars@ == s@,
            out@ == old(out)@ + encode_seq(s@.take(i as int)),
        decreases chars.len() - i,
    {
        let c = chars[i];
        proof {
            assert(s@.take(i + 1).drop_last() =~= s@.take(i as int));
            assert(s@.take(i + 1).last() == s@[i as int]);
        }
        match get_entity(c) {
            Option::Some(e) => {
                out.push('&');
                out.push_str(e);
                out.push(';');
                proof {
                    assert(out@ =~= old(out)@ + encode_seq(s@.take(i + 1)));
                }
            },
            Option::None => {
                out.push(c);
                proof {
                    assert(out@ =~= old(out)@ + encode_seq(s@.take(i + 1)));
                }
            },
        }
        i = i + 1;
    }
    proof {
        assert(s@.take(chars@.len() as int) =~= s@);
    }
}

/// A piece of text that is entity-encoded when rendered: `"`, `&`, `'`,
/// `<` and `>` become entities.
pub struct Encoder<'a>(pub &'a str);

impl<'a> Encoder<'a> {
    /// The encoded form of the wrapped text.
    pub fn encode(&self) -> (r: String)
        ensures
            r@ == encode_seq(self.0@),
    {
        let mut out = String::new();
        encode_into(&mut out, self.0);
        proof {
            assert(out@ =~= encode_seq(self.0@));
        }
        out
    }
}

} // verus!
