use vstd::prelude::*;
use vstd::string::*;

verus! {

/// How one character of an address or category stands in a storage name:
/// `%`, `-` and `/` are written as `%` and two more characters, every other
/// character as itself.
pub open spec fn spec_escape_char(c: char) -> Seq<char> {
    if c == '%' {
        seq!['%', '2', '5']
    } else if c == '-' {
        seq!['%', '2', 'D']
    } else if c == '/' {
        seq!['%', '2', 'F']
    } else {
        seq![c]
    }
}

/// How a text stands in a storage name: character by character.
pub open spec fn spec_escape(s: Seq<char>) -> Seq<char>
    decreases s.len(),
{
    if s.len() == 0 {
        Seq::<char>::empty()
    } else {
        spec_escape_char(s[0]) + spec_escape(s.drop_first())
    }
}

/// The name under which the ballot of `addr` in `category` is stored.
pub open spec fn spec_vote_key(addr: Seq<char>, category: Seq<char>) -> Seq<char> {
    spec_escape(addr) + "-"@ + spec_escape(category) + ".json"@
}

/// How the name of every ballot of `addr` begins.
pub open spec fn spec_key_prefix(addr: Seq<char>) -> Seq<char> {
    spec_escape(addr) + "-"@
}

/// Escaping a text with one more character appends that character's form.
pub proof fn lemma_escape_push(s: Seq<char>, c: char)
    ensures
        spec_escape(s.push(c)) == spec_escape(s) + spec_escape_char(c),
    decreases s.len(),
{
    let t = s.push(c);
    if s.len() == 0 {
        assert(t.drop_first() =~= Seq::<char>::empty());
        assert(spec_escape(t.drop_first()) =~= Seq::<char>::empty());
        assert(spec_escape(t) =~= spec_escape(s) + spec_escape_char(c));
    } else {
        assert(t.drop_first() =~= s.drop_first().push(c));
        lemma_escape_push(s.drop_first(), c);
        assert(spec_escape(t) =~= spec_escape(s) + spec_escape_char(c));
    }
}

/// An escaped text holds neither `-` nor `/`.
pub proof fn lemma_escape_has_no_separator(s: Seq<char>)
    ensures
        forall|i: int|
            0 <= i < spec_escape(s).len() ==> (#[trigger] spec_escape(s)[i]) != '-' && spec_escape(
                s,
            )[i] != '/',
    decreases s.len(),
{
    if s.len() > 0 {
        lemma_escape_has_no_separator(s.drop_first());
        let head = spec_escape_char(s[0]);
        let rest = spec_escape(s.drop_first());
        assert forall|i: int| 0 <= i < spec_escape(s).len() implies (#[trigger] spec_escape(s)[i])
            != '-' && spec_escape(s)[i] != '/' by {
            if i >= head.len() {
                assert(spec_escape(s)[i] == rest[i - head.len()]);
            } else {
                assert(spec_escape(s)[i] == head[i]);
            }
        }
    }
}

/// Two texts with the same escaped form are the same text.
pub proof fn lemma_escape_injective(a: Seq<char>, b: Seq<char>)
    requires
        spec_escape(a) == spec_escape(b),
    ensures
        a == b,
    decreases a.len(),
{
    if a.len() == 0 {
        if b.len() > 0 {
            assert(spec_escape(b).len() >= spec_escape_char(b[0]).len());
        }
        assert(a =~= b);
    } else {
        let ha = spec_escape_char(a[0]);
        let ra = spec_escape(a.drop_first());
        assert(spec_escape(a) == ha + ra);
        assert(spec_escape(a).len() >= 1);
        if b.len() == 0 {
            assert(spec_escape(b).len() == 0);
        }
        let hb = spec_escape_char(b[0]);
        let rb = spec_escape(b.drop_first());
        assert(spec_escape(b) == hb + rb);
        assert((ha + ra)[0] == ha[0]);
        assert((hb + rb)[0] == hb[0]);
        if ha.len() == 3 {
            assert(ha[0] == '%');
            assert(hb.len() == 3);
            assert((ha + ra)[2] == ha[2]);
            assert((hb + rb)[2] == hb[2]);
            assert(a[0] == b[0]);
        } else {
            assert(ha[0] != '%');
            assert(hb.len() == 1);
            assert(a[0] == b[0]);
        }
        assert(ra =~= (ha + ra).subrange(ha.len() as int, (ha + ra).len() as int));
        assert(rb =~= (hb + rb).subrange(hb.len() as int, (hb + rb).len() as int));
        lemma_escape_injective(a.drop_first(), b.drop_first());
        assert(a =~= seq![a[0]] + a.drop_first());
        assert(b =~= seq![b[0]] + b.drop_first());
    }
}

/// Where the name of a ballot of `a2` begins as those of `a1` do, the two
/// addresses are the same.
pub proof fn lemma_key_prefix_tells_address(a1: Seq<char>, a2: Seq<char>, rest: Seq<char>)
    requires
        spec_key_prefix(a1).is_prefix_of(spec_key_prefix(a2) + rest),
    ensures
        a1 == a2,
{
    reveal_strlit("-");
    let p1 = spec_escape(a1);
    let p2 = spec_escape(a2);
    let k1 = spec_key_prefix(a1);
    let k2 = spec_key_prefix(a2) + rest;
    lemma_escape_has_no_separator(a1);
    lemma_escape_has_no_separator(a2);
    assert(k1.len() == p1.len() + 1);
    assert(k1 =~= k2.subrange(0, k1.len() as int));
    assert forall|i: int| 0 <= i < k1.len() implies k1[i] == k2[i] by {
        assert(k2.subrange(0, k1.len() as int)[i] == k2[i]);
    }
    if p1.len() < p2.len() {
        assert(k1[p1.len() as int] == '-');
        assert(k2[p1.len() as int] == p2[p1.len() as int]);
    } else if p2.len() < p1.len() {
        assert(k2[p2.len() as int] == '-');
        assert(k1[p2.len() as int] == p1[p2.len() as int]);
    }
    assert(p1.len() == p2.len());
    assert forall|i: int| 0 <= i < p1.len() implies p1[i] == p2[i] by {
        assert(k1[i] == p1[i]);
        assert(k2[i] == p2[i]);
    }
    assert(p1 =~= p2);
    lemma_escape_injective(a1, a2);
}

/// Two ballots stored under the same name have the same address and the same
/// category.
pub proof fn lemma_vote_key_injective(
    a1: Seq<char>,
    c1: Seq<char>,
    a2: Seq<char>,
    c2: Seq<char>,
)
    requires
        spec_vote_key(a1, c1) == spec_vote_key(a2, c2),
    ensures
        a1 == a2,
        c1 == c2,
{
    let k1 = spec_vote_key(a1, c1);
    let k2 = spec_vote_key(a2, c2);
    let r2 = spec_escape(c2) + ".json"@;
    assert(k2 =~= spec_key_prefix(a2) + r2);
    assert(spec_key_prefix(a1) =~= k1.subrange(0, spec_key_prefix(a1).len() as int));
    lemma_key_prefix_tells_address(a1, a2, r2);
    let p = spec_key_prefix(a1);
    let q1 = spec_escape(c1);
    let q2 = spec_escape(c2);
    assert(k1 =~= p + q1 + ".json"@);
    assert(k2 =~= p + q2 + ".json"@);
    assert(q1.len() == q2.len());
    assert forall|i: int| 0 <= i < q1.len() implies q1[i] == q2[i] by {
        assert((p + q1 + ".json"@)[p.len() + i] == q1[i]);
        assert((p + q2 + ".json"@)[p.len() + i] == q2[i]);
    }
    assert(q1 =~= q2);
    lemma_escape_injective(c1, c2);
}

/// The name of a ballot holds no `/`: it names an entry of one directory.
pub proof fn lemma_vote_key_has_no_slash(addr: Seq<char>, category: Seq<char>)
    ensures
        forall|i: int|
            0 <= i < spec_vote_key(addr, category).len() ==> (#[trigger] spec_vote_key(
                addr,
                category,
            )[i]) != '/',
{
    reveal_strlit("-");
    reveal_strlit(".json");
    lemma_escape_has_no_separator(addr);
    lemma_escape_has_no_separator(category);
    let p = spec_escape(addr);
    let q = spec_escape(category);
    let k = spec_vote_key(addr, category);
    assert forall|i: int| 0 <= i < k.len() implies (#[trigger] k[i]) != '/' by {
        if i < p.len() {
            assert(k[i] == p[i]);
        } else if i < p.len() + 1 {
            assert(k[i] == "-"@[i - p.len()]);
        } else if i < p.len() + 1 + q.len() {
            assert(k[i] == q[i - p.len() - 1]);
        } else {
            assert(k[i] == ".json"@[i - p.len() - 1 - q.len()]);
        }
    }
}

/// The escaped form of `text`, as it stands in a storage name.
pub fn escape(text: &str) -> (r: String)
    ensures
        r@ == spec_escape(text@),
{
    let n: usize = text.unicode_len();
    let mut out = String::new();
    let mut i: usize = 0;
    while i < n
        invariant
            n == text@.len(),
            i <= n,
            out@ == spec_escape(text@.take(i as int)),
        decreases n - i,
    {
        let c = text.get_char(i);
        proof {
            reveal_strlit("%25");
            reveal_strlit("%2D");
            reveal_strlit("%2F");
            lemma_escape_push(text@.take(i as int), c);
            assert(text@.take(i + 1) =~= text@.take(i as int).push(c));
            assert("%25"@ =~= seq!['%', '2', '5']);
            assert("%2D"@ =~= seq!['%', '2', 'D']);
            assert("%2F"@ =~= seq!['%', '2', 'F']);
            assert(text@.subrange(i as int, i + 1) =~= seq![c]);
        }
        if c == '%' {
            out.append("%25");
        } else if c == '-' {
            out.append("%2D");
        } else if c == '/' {
            out.append("%2F");
        } else {
            out.append(text.substring_char(i, i + 1));
        }
        i += 1;
    }
    assert(text@.take(n as int) =~= text@);
    out
}

} // verus!
