//! The one piece of the sign-in handshake that is pure logic: pulling
//! an attribute value out of the XML the identity service's pin
//! endpoint answers with. The handshake's HTTP calls happen at the
//! boundary.

use vstd::prelude::*;

use crate::plex::occurs_at;
use crate::strutil::push_char;

verus! {

/// The pattern occurs at position `i` of the text.
pub open spec fn sub_at(hay: Seq<char>, needle: Seq<char>, i: int) -> bool {
    0 <= i && i + needle.len() <= hay.len() && hay.subrange(i, i + needle.len()) == needle
}

/// The search pattern of an attribute: its name, an equals sign and
/// the opening quote.
pub open spec fn attr_pattern(attr: Seq<char>) -> Seq<char> {
    attr + seq!['=', '"']
}

/// Extract the value of an XML attribute: the text between the first
/// `attr="` and the next quote. Returns nothing when the attribute
/// never occurs, or its value is never closed.
pub fn extract_xml_attr(xml: &str, attr: &str) -> (r: Option<String>)
    ensures
        r matches Some(v) ==> exists|i: int| #[trigger]
            sub_at(xml@, attr_pattern(attr@), i) && (forall|i2: int|
                sub_at(xml@, attr_pattern(attr@), i2) ==> i <= i2) && (exists|q: int|
                i + attr_pattern(attr@).len() <= q < xml@.len() && xml@[q] == '"' && (forall|
                    k: int,
                |
                    i + attr_pattern(attr@).len() <= k < q ==> xml@[k] != '"') && v@
                    == xml@.subrange(i + attr_pattern(attr@).len(), q)),
        r is None ==> (forall|i: int| !(#[trigger] sub_at(xml@, attr_pattern(attr@), i)))
            || (exists|i: int| #[trigger]
            sub_at(xml@, attr_pattern(attr@), i) && (forall|q: int|
                i + attr_pattern(attr@).len() <= q < xml@.len() ==> xml@[q] != '"')),
{
    let mut pattern = String::from_str(attr);
    push_char(&mut pattern, '=');
    push_char(&mut pattern, '"');
    proof {
        assert(pattern@ =~= attr_pattern(attr@));
    }
    let n = xml.unicode_len();
    let pn = pattern.as_str().unicode_len();
    if pn > n {
        proof {
            assert forall|i: int| !(#[trigger] sub_at(xml@, attr_pattern(attr@), i)) by {}
        }
        return None;
    }
    let mut i: usize = 0;
    let mut found: Option<usize> = None;
    while i <= n - pn && found.is_none()
        invariant
            n == xml@.len(),
            pn == attr_pattern(attr@).len(),
            pattern@ == attr_pattern(attr@),
            pn <= n,
            0 <= i <= n - pn + 1,
            found matches Some(f) ==> sub_at(xml@, attr_pattern(attr@), f as int) && (forall|
                i2: int,
            |
                sub_at(xml@, attr_pattern(attr@), i2) ==> f as int <= i2) && i == f,
            found is None ==> forall|i2: int|
                0 <= i2 < i ==> !(#[trigger] sub_at(xml@, attr_pattern(attr@), i2)),
        decreases n - i + (if found is None {
            1 as int
        } else {
            0 as int
        }),
    {
        if occurs_at(xml, i, pattern.as_str()) {
            proof {
                assert(sub_at(xml@, attr_pattern(attr@), i as int));
            }
            found = Some(i);
        } else {
            i = i + 1;
        }
    }
    let f = match found {
        Some(f) => f,
        None => {
            proof {
                assert forall|i2: int| !(#[trigger] sub_at(
                    xml@,
                    attr_pattern(attr@),
                    i2,
                )) by {
                    if 0 <= i2 && i2 + pn <= n {
                        assert(i2 < i);
                    }
                }
            }
            return None;
        },
    };
    let start = f + pn;
    let mut q: usize = start;
    while q < n
        invariant
            start <= q <= n,
            start == f + pn,
            n == xml@.len(),
            pn == attr_pattern(attr@).len(),
            sub_at(xml@, attr_pattern(attr@), f as int),
            forall|i2: int| sub_at(xml@, attr_pattern(attr@), i2) ==> f as int <= i2,
            forall|k: int| start <= k < q ==> xml@[k] != '"',
        decreases n - q,
    {
        if xml.get_char(q) == '"' {
            let value = String::from_str(xml.substring_char(start, q));
            proof {
                let pat = attr_pattern(attr@);
                assert(sub_at(xml@, pat, f as int) && (forall|i2: int|
                    sub_at(xml@, pat, i2) ==> f as int <= i2) && (f as int + pat.len() <= (
                q as int) < xml@.len() && xml@[q as int] == '"' && (forall|k: int|
                    f as int + pat.len() <= k < q as int ==> xml@[k] != '"') && value@
                    == xml@.subrange(f as int + pat.len(), q as int)));
            }
            return Some(value);
        }
        q = q + 1;
    }
    None
}

} // verus!
