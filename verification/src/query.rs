use vstd::prelude::*;
use vstd::string::*;

verus! {

/// Whether a character stands for itself in a query value: an ASCII letter
/// or digit, or one of `-`, `.`, `_`, `~`.
pub open spec fn spec_unreserved(c: char) -> bool {
    let n = c as u32;
    (48 <= n <= 57) || (65 <= n <= 90) || (97 <= n <= 122) || n == 45 || n == 46 || n == 95 || n
        == 126
}

/// Whether a character is written into a query value as it is: an unreserved
/// character, or one outside ASCII.
pub open spec fn spec_kept(c: char) -> bool {
    spec_unreserved(c) || c as u32 >= 128
}

/// The upper-case hexadecimal digit for a number below sixteen.
pub open spec fn spec_hex_digit(n: int) -> char {
    if n == 0 {
        '0'
    } else if n == 1 {
        '1'
    } else if n == 2 {
        '2'
    } else if n == 3 {
        '3'
    } else if n == 4 {
        '4'
    } else if n == 5 {
        '5'
    } else if n == 6 {
        '6'
    } else if n == 7 {
        '7'
    } else if n == 8 {
        '8'
    } else if n == 9 {
        '9'
    } else if n == 10 {
        'A'
    } else if n == 11 {
        'B'
    } else if n == 12 {
        'C'
    } else if n == 13 {
        'D'
    } else if n == 14 {
        'E'
    } else {
        'F'
    }
}

/// How one character stands in a query value: a kept character as itself,
/// every other as `%` and the two hexadecimal digits of its code.
pub open spec fn spec_url_escape_char(c: char) -> Seq<char> {
    if spec_kept(c) {
        seq![c]
    } else {
        seq!['%', spec_hex_digit((c as u32 / 16) as int), spec_hex_digit((c as u32 % 16) as int)]
    }
}

/// How a text stands in a query value: character by character.
pub open spec fn spec_url_escape(s: Seq<char>) -> Seq<char>
    decreases s.len(),
{
    if s.len() == 0 {
        Seq::<char>::empty()
    } else {
        spec_url_escape_char(s[0]) + spec_url_escape(s.drop_first())
    }
}

/// Whether a character is a hexadecimal digit as escaping writes it.
pub open spec fn spec_is_hex_digit(c: char) -> bool {
    exists|n: int| 0 <= n < 16 && c == #[trigger] spec_hex_digit(n)
}

/// Different numbers below sixteen have different digits, and every digit is
/// an unreserved character.
pub proof fn lemma_hex_digits(a: int, b: int)
    requires
        0 <= a < 16,
        0 <= b < 16,
    ensures
        spec_hex_digit(a) == spec_hex_digit(b) ==> a == b,
        spec_unreserved(spec_hex_digit(a)),
        spec_hex_digit(a) != '%',
{
}

/// Escaping a text with one more character appends that character's form.
pub proof fn lemma_url_escape_push(s: Seq<char>, c: char)
    ensures
        spec_url_escape(s.push(c)) == spec_url_escape(s) + spec_url_escape_char(c),
    decreases s.len(),
{
    let t = s.push(c);
    if s.len() == 0 {
        assert(t.drop_first() =~= Seq::<char>::empty());
        assert(spec_url_escape(t.drop_first()) =~= Seq::<char>::empty());
        assert(spec_url_escape(t) =~= spec_url_escape(s) + spec_url_escape_char(c));
    } else {
        assert(t.drop_first() =~= s.drop_first().push(c));
        lemma_url_escape_push(s.drop_first(), c);
        assert(spec_url_escape(t) =~= spec_url_escape(s) + spec_url_escape_char(c));
    }
}

/// Every character of an escaped text is a kept character or `%`. So it
/// holds none of `&`, `=`, `#`, `?`, `+`, `/`, no space and no control
/// character.
pub proof fn lemma_url_escape_is_safe(s: Seq<char>)
    ensures
        forall|i: int|
            0 <= i < spec_url_escape(s).len() ==> {
                let c = #[trigger] spec_url_escape(s)[i];
                &&& (spec_kept(c) || c == '%')
                &&& c != '&'
                &&& c != '='
                &&& c != '#'
                &&& c != '?'
                &&& c != '+'
                &&& c != '/'
                &&& c != ' '
            },
    decreases s.len(),
{
    if s.len() > 0 {
        lemma_url_escape_is_safe(s.drop_first());
        let head = spec_url_escape_char(s[0]);
        let rest = spec_url_escape(s.drop_first());
        let all = spec_url_escape(s);
        if !spec_kept(s[0]) {
            assert(s[0] as u32 / 16 < 8);
            lemma_hex_digits((s[0] as u32 / 16) as int, (s[0] as u32 % 16) as int);
            lemma_hex_digits((s[0] as u32 % 16) as int, (s[0] as u32 / 16) as int);
        }
        assert forall|i: int| 0 <= i < all.len() implies {
            let c = #[trigger] all[i];
            &&& (spec_kept(c) || c == '%')
            &&& c != '&'
            &&& c != '='
            &&& c != '#'
            &&& c != '?'
            &&& c != '+'
            &&& c != '/'
            &&& c != ' '
        } by {
            if i >= head.len() {
                assert(all[i] == rest[i - head.len()]);
            } else {
                assert(all[i] == head[i]);
            }
        }
    }
}

/// In an escaped text every `%` begins an escape: two hexadecimal digits
/// follow it.
pub proof fn lemma_url_escape_percent_begins_escape(s: Seq<char>)
    ensures
        forall|i: int|
            0 <= i < spec_url_escape(s).len() && #[trigger] spec_url_escape(s)[i] == '%' ==> i + 2
                < spec_url_escape(s).len() && spec_is_hex_digit(spec_url_escape(s)[i + 1])
                && spec_is_hex_digit(spec_url_escape(s)[i + 2]),
    decreases s.len(),
{
    if s.len() > 0 {
        lemma_url_escape_percent_begins_escape(s.drop_first());
        let head = spec_url_escape_char(s[0]);
        let rest = spec_url_escape(s.drop_first());
        let all = spec_url_escape(s);
        let hi = (s[0] as u32 / 16) as int;
        let lo = (s[0] as u32 % 16) as int;
        assert forall|i: int| 0 <= i < all.len() && #[trigger] all[i] == '%' implies i + 2
            < all.len() && spec_is_hex_digit(all[i + 1]) && spec_is_hex_digit(all[i + 2]) by {
            if i >= head.len() {
                let k = i - head.len();
                assert(all[i] == rest[k]);
                assert(rest[k] == '%');
                assert(all[i + 1] == rest[k + 1]);
                assert(all[i + 2] == rest[k + 2]);
            } else {
                assert(all[i] == head[i]);
                if spec_kept(s[0]) {
                    assert(head[0] != '%');
                } else {
                    assert(hi < 8);
                    lemma_hex_digits(hi, lo);
                    lemma_hex_digits(lo, hi);
                    assert(i == 0);
                    assert(all[1] == head[1]);
                    assert(all[2] == head[2]);
                    assert(head[1] == spec_hex_digit(hi));
                    assert(head[2] == spec_hex_digit(lo));
                }
            }
        }
    }
}

/// Two texts with the same escaped form are the same text.
pub proof fn lemma_url_escape_injective(a: Seq<char>, b: Seq<char>)
    requires
        spec_url_escape(a) == spec_url_escape(b),
    ensures
        a == b,
    decreases a.len(),
{
    if a.len() == 0 {
        if b.len() > 0 {
            assert(spec_url_escape(b).len() >= spec_url_escape_char(b[0]).len());
        }
        assert(a =~= b);
    } else {
        let ha = spec_url_escape_char(a[0]);
        let ra = spec_url_escape(a.drop_first());
        assert(spec_url_escape(a) == ha + ra);
        assert(spec_url_escape(a).len() >= 1);
        if b.len() == 0 {
            assert(spec_url_escape(b).len() == 0);
        }
        let hb = spec_url_escape_char(b[0]);
        let rb = spec_url_escape(b.drop_first());
        assert(spec_url_escape(b) == hb + rb);
        assert((ha + ra)[0] == ha[0]);
        assert((hb + rb)[0] == hb[0]);
        if ha.len() == 3 {
            assert(ha[0] == '%');
            assert(hb.len() == 3);
            assert((ha + ra)[1] == ha[1]);
            assert((hb + rb)[1] == hb[1]);
            assert((ha + ra)[2] == ha[2]);
            assert((hb + rb)[2] == hb[2]);
            let x = a[0] as u32;
            let y = b[0] as u32;
            assert(x < 128 && y < 128);
            lemma_hex_digits((x / 16) as int, (y / 16) as int);
            lemma_hex_digits((x % 16) as int, (y % 16) as int);
            assert(x == y);
            vstd::utf8::char_u32_cast(a[0], x);
            vstd::utf8::char_u32_cast(b[0], y);
            assert(a[0] == b[0]);
        } else {
            assert(ha[0] != '%');
            assert(hb.len() == 1);
            assert(a[0] == b[0]);
        }
        assert(ra =~= (ha + ra).subrange(ha.len() as int, (ha + ra).len() as int));
        assert(rb =~= (hb + rb).subrange(hb.len() as int, (hb + rb).len() as int));
        lemma_url_escape_injective(a.drop_first(), b.drop_first());
        assert(a =~= seq![a[0]] + a.drop_first());
        assert(b =~= seq![b[0]] + b.drop_first());
    }
}

/// Two texts that are each an escaped value followed by a text that begins
/// with `&` are equal only where the values and what follows them are.
pub proof fn lemma_value_ends_at_mark(a: Seq<char>, ra: Seq<char>, b: Seq<char>, rb: Seq<char>)
    requires
        ra.len() > 0 && ra[0] == '&',
        rb.len() > 0 && rb[0] == '&',
        spec_url_escape(a) + ra == spec_url_escape(b) + rb,
    ensures
        a == b,
        ra == rb,
{
    let ea = spec_url_escape(a);
    let eb = spec_url_escape(b);
    let ta = ea + ra;
    let tb = eb + rb;
    lemma_url_escape_is_safe(a);
    lemma_url_escape_is_safe(b);
    if ea.len() < eb.len() {
        assert(ta[ea.len() as int] == ra[0]);
        assert(tb[ea.len() as int] == eb[ea.len() as int]);
    } else if eb.len() < ea.len() {
        assert(tb[eb.len() as int] == rb[0]);
        assert(ta[eb.len() as int] == ea[eb.len() as int]);
    }
    assert(ea.len() == eb.len());
    assert(ea =~= ta.subrange(0, ea.len() as int));
    assert(eb =~= tb.subrange(0, eb.len() as int));
    assert(ra =~= ta.subrange(ea.len() as int, ta.len() as int));
    assert(rb =~= tb.subrange(eb.len() as int, tb.len() as int));
    lemma_url_escape_injective(a, b);
}

/// The upper-case hexadecimal digit for a number below sixteen, as a text of
/// one character.
pub fn hex_digit(n: u32) -> (r: &'static str)
    requires
        n < 16,
    ensures
        r@ == seq![spec_hex_digit(n as int)],
{
    if n == 0 {
        proof {
            reveal_strlit("0");
            assert("0"@ =~= seq!['0']);
        }
        "0"
    } else if n == 1 {
        proof {
            reveal_strlit("1");
            assert("1"@ =~= seq!['1']);
        }
        "1"
    } else if n == 2 {
        proof {
            reveal_strlit("2");
            assert("2"@ =~= seq!['2']);
        }
        "2"
    } else if n == 3 {
        proof {
            reveal_strlit("3");
            assert("3"@ =~= seq!['3']);
        }
        "3"
    } else if n == 4 {
        proof {
            reveal_strlit("4");
            assert("4"@ =~= seq!['4']);
        }
        "4"
    } else if n == 5 {
        proof {
            reveal_strlit("5");
            assert("5"@ =~= seq!['5']);
        }
        "5"
    } else if n == 6 {
        proof {
            reveal_strlit("6");
            assert("6"@ =~= seq!['6']);
        }
        "6"
    } else if n == 7 {
        proof {
            reveal_strlit("7");
            assert("7"@ =~= seq!['7']);
        }
        "7"
    } else if n == 8 {
        proof {
            reveal_strlit("8");
            assert("8"@ =~= seq!['8']);
        }
        "8"
    } else if n == 9 {
        proof {
            reveal_strlit("9");
            assert("9"@ =~= seq!['9']);
        }
        "9"
    } else if n == 10 {
        proof {
            reveal_strlit("A");
            assert("A"@ =~= seq!['A']);
        }
        "A"
    } else if n == 11 {
        proof {
            reveal_strlit("B");
            assert("B"@ =~= seq!['B']);
        }
        "B"
    } else if n == 12 {
        proof {
            reveal_strlit("C");
            assert("C"@ =~= seq!['C']);
        }
        "C"
    } else if n == 13 {
        proof {
            reveal_strlit("D");
            assert("D"@ =~= seq!['D']);
        }
        "D"
    } else if n == 14 {
        proof {
            reveal_strlit("E");
            assert("E"@ =~= seq!['E']);
        }
        "E"
    } else {
        proof {
            reveal_strlit("F");
            assert("F"@ =~= seq!['F']);
        }
        "F"
    }
}

/// The escaped form of `text`, as it stands in a query value.
pub fn url_escape(text: &str) -> (r: String)
    ensures
        r@ == spec_url_escape(text@),
{
    let n: usize = text.unicode_len();
    let mut out = String::new();
    let mut i: usize = 0;
    while i < n
        invariant
            n == text@.len(),
            i <= n,
            out@ == spec_url_escape(text@.take(i as int)),
        decreases n - i,
    {
        let c = text.get_char(i);
        let code: u32 = c as u32;
        let ghost before = out@;
        proof {
            lemma_url_escape_push(text@.take(i as int), c);
            assert(text@.take(i + 1) =~= text@.take(i as int).push(c));
            assert(text@.subrange(i as int, i + 1) =~= seq![c]);
        }
        if (48 <= code && code <= 57) || (65 <= code && code <= 90) || (97 <= code && code <= 122)
            || code == 45 || code == 46 || code == 95 || code == 126 || code >= 128 {
            out.append(text.substring_char(i, i + 1));
        } else {
            out.append("%");
            out.append(hex_digit(code / 16));
            out.append(hex_digit(code % 16));
            proof {
                reveal_strlit("%");
                assert("%"@ =~= seq!['%']);
                assert(out@ =~= before + spec_url_escape_char(c));
            }
        }
        i += 1;
    }
    assert(text@.take(n as int) =~= text@);
    out
}

} // verus!
