//! What model identities tell about models.

use crate::identity;
use crate::text;
use vstd::prelude::*;

verus! {

/// The value of one form of a key, without white space at its ends, unless it
/// is blank.
pub open spec fn form_value(kv: Map<Seq<char>, Seq<char>>, k: Seq<char>) -> Option<Seq<char>> {
    if kv.contains_key(k) && text::trimmed(kv[k]).len() > 0 {
        Some(text::trimmed(kv[k]))
    } else {
        None
    }
}

/// The first of two values that is there.
pub open spec fn first_of(a: Option<Seq<char>>, b: Option<Seq<char>>) -> Option<Seq<char>> {
    if a is Some {
        a
    } else {
        b
    }
}

/// The characters of the forms of the keys.
proof fn lemma_forms()
    ensures
        "model"@ =~= seq!['m', 'o', 'd', 'e', 'l'],
        "m"@ =~= seq!['m'],
        "model-url"@ =~= seq!['m', 'o', 'd', 'e', 'l', '-', 'u', 'r', 'l'],
        "mu"@ =~= seq!['m', 'u'],
        "hf-repo"@ =~= seq!['h', 'f', '-', 'r', 'e', 'p', 'o'],
        "hf"@ =~= seq!['h', 'f'],
        "hfr"@ =~= seq!['h', 'f', 'r'],
        "hf-file"@ =~= seq!['h', 'f', '-', 'f', 'i', 'l', 'e'],
        "hff"@ =~= seq!['h', 'f', 'f'],
{
    reveal_strlit("model");
    reveal_strlit("m");
    reveal_strlit("model-url");
    reveal_strlit("mu");
    reveal_strlit("hf-repo");
    reveal_strlit("hf");
    reveal_strlit("hfr");
    reveal_strlit("hf-file");
    reveal_strlit("hff");
}

/// The order of the forms of each key.
proof fn lemma_form_order()
    ensures
        text::precedes("m"@, "model"@),
        text::precedes("model-url"@, "mu"@),
        text::precedes("hf"@, "hf-repo"@),
        text::precedes("hf-repo"@, "hfr"@),
        text::precedes("hf"@, "hfr"@),
        text::precedes("hf-file"@, "hff"@),
{
    lemma_forms();
    reveal_with_fuel(text::precedes, 5);
    let e = Seq::<char>::empty();
    assert("m"@.drop_first() =~= e);
    assert("model"@.drop_first() =~= seq!['o', 'd', 'e', 'l']);
    assert("model-url"@.drop_first() =~= seq!['o', 'd', 'e', 'l', '-', 'u', 'r', 'l']);
    assert("mu"@.drop_first() =~= seq!['u']);
    assert("hf"@.drop_first() =~= seq!['f']);
    assert(seq!['f'].drop_first() =~= e);
    assert("hf-repo"@.drop_first() =~= seq!['f', '-', 'r', 'e', 'p', 'o']);
    assert("hf-repo"@.drop_first().drop_first() =~= seq!['-', 'r', 'e', 'p', 'o']);
    assert("hfr"@.drop_first() =~= seq!['f', 'r']);
    assert("hfr"@.drop_first().drop_first() =~= seq!['r']);
    assert("hf-file"@.drop_first() =~= seq!['f', '-', 'f', 'i', 'l', 'e']);
    assert("hf-file"@.drop_first().drop_first() =~= seq!['-', 'f', 'i', 'l', 'e']);
    assert("hff"@.drop_first() =~= seq!['f', 'f']);
    assert("hff"@.drop_first().drop_first() =~= seq!['f']);
}

/// Which form of a key decides, where several have a value: `model` before
/// `m`, `mu` before `model-url`, `hfr` before `hf-repo` before `hf`, and `hff`
/// before `hf-file`.
pub proof fn law_form_priority(kv: Map<Seq<char>, Seq<char>>)
    ensures
        identity::source_value(kv, "model"@) == first_of(
            form_value(kv, "model"@),
            form_value(kv, "m"@),
        ),
        identity::source_value(kv, "model-url"@) == first_of(
            form_value(kv, "mu"@),
            form_value(kv, "model-url"@),
        ),
        identity::source_value(kv, "hf-repo"@) == first_of(
            form_value(kv, "hfr"@),
            first_of(form_value(kv, "hf-repo"@), form_value(kv, "hf"@)),
        ),
        identity::source_value(kv, "hf-file"@) == first_of(
            form_value(kv, "hff"@),
            form_value(kv, "hf-file"@),
        ),
{
    lemma_forms();
    lemma_form_order();
    if form_value(kv, "model"@) is Some {
        identity::lemma_one_decides(kv, "model"@, "model"@);
    } else if form_value(kv, "m"@) is Some {
        identity::lemma_one_decides(kv, "model"@, "m"@);
    }
    if form_value(kv, "mu"@) is Some {
        identity::lemma_one_decides(kv, "model-url"@, "mu"@);
    } else if form_value(kv, "model-url"@) is Some {
        identity::lemma_one_decides(kv, "model-url"@, "model-url"@);
    }
    if form_value(kv, "hfr"@) is Some {
        identity::lemma_one_decides(kv, "hf-repo"@, "hfr"@);
    } else if form_value(kv, "hf-repo"@) is Some {
        identity::lemma_one_decides(kv, "hf-repo"@, "hf-repo"@);
    } else if form_value(kv, "hf"@) is Some {
        identity::lemma_one_decides(kv, "hf-repo"@, "hf"@);
    }
    if form_value(kv, "hff"@) is Some {
        identity::lemma_one_decides(kv, "hf-file"@, "hff"@);
    } else if form_value(kv, "hf-file"@) is Some {
        identity::lemma_one_decides(kv, "hf-file"@, "hf-file"@);
    }
}

/// `s` holds no `;`.
pub open spec fn no_semicolon(s: Seq<char>) -> bool {
    forall|i: int| 0 <= i < s.len() ==> #[trigger] s[i] != ';'
}

/// Two sections name the same sources.
pub open spec fn same_sources(a: Map<Seq<char>, Seq<char>>, b: Map<Seq<char>, Seq<char>>) -> bool {
    &&& identity::source_value(a, "model"@) == identity::source_value(b, "model"@)
    &&& identity::source_value(a, "model-url"@) == identity::source_value(b, "model-url"@)
    &&& identity::source_value(a, "hf-repo"@) == identity::source_value(b, "hf-repo"@)
    &&& identity::source_value(a, "hf-file"@) == identity::source_value(b, "hf-file"@)
}

/// No source that a section names holds `;`.
pub open spec fn plain_sources(kv: Map<Seq<char>, Seq<char>>) -> bool {
    forall|k: Seq<char>| #[trigger] kv.contains_key(k) ==> no_semicolon(kv[k])
}

/// The last `;` parts a text in one way.
proof fn lemma_last_semicolon(x: Seq<char>, a: Seq<char>, y: Seq<char>, b: Seq<char>)
    requires
        x + ";"@ + a == y + ";"@ + b,
        no_semicolon(a),
        no_semicolon(b),
    ensures
        x == y,
        a == b,
{
    reveal_strlit(";");
    let s = x + ";"@ + a;
    let t = y + ";"@ + b;
    assert(s[x.len() as int] == ';');
    assert(t[y.len() as int] == ';');
    assert(s.len() == x.len() + 1 + a.len());
    assert(t.len() == y.len() + 1 + b.len());
    if a.len() < b.len() {
        assert(t[x.len() as int] == b[x.len() - y.len() - 1]);
    }
    if b.len() < a.len() {
        assert(s[y.len() as int] == a[y.len() - x.len() - 1]);
    }
    assert(x =~= s.take(x.len() as int));
    assert(y =~= t.take(y.len() as int));
    assert(a =~= s.skip(x.len() as int + 1));
    assert(b =~= t.skip(y.len() as int + 1));
}

/// Parts that are not empty and hold no `;` can be told from their join.
proof fn lemma_join_injective(p: Seq<Seq<char>>, q: Seq<Seq<char>>)
    requires
        identity::joined_parts(p) == identity::joined_parts(q),
        forall|i: int| 0 <= i < p.len() ==> (#[trigger] p[i]).len() > 0 && no_semicolon(p[i]),
        forall|i: int| 0 <= i < q.len() ==> (#[trigger] q[i]).len() > 0 && no_semicolon(q[i]),
    ensures
        p == q,
    decreases p.len(),
{
    reveal_strlit(";");
    let s = identity::joined_parts(p);
    if p.len() >= 2 {
        let x = identity::joined_parts(p.drop_last());
        assert(s[x.len() as int] == ';');
        assert(s.len() > 0);
        if q.len() == 1 {
            assert(q[0][x.len() as int] == ';');
        }
        lemma_last_semicolon(x, p.last(), identity::joined_parts(q.drop_last()), q.last());
        lemma_join_injective(p.drop_last(), q.drop_last());
        assert(p =~= p.drop_last().push(p.last()));
        assert(q =~= q.drop_last().push(q.last()));
    } else {
        if q.len() >= 2 {
            let y = identity::joined_parts(q.drop_last());
            assert(s == y + ";"@ + q.last());
            assert(s.len() > y.len());
            assert(s[y.len() as int] == ';');
            if p.len() == 1 {
                assert(p[0][y.len() as int] == ';');
            }
        }
        if p.len() == 1 {
            assert(p[0].len() > 0);
        }
        if q.len() == 1 {
            assert(q[0].len() > 0);
        }
        assert(p =~= q);
    }
}

/// `part` is the part of an identity for the key `canon`.
spec fn part_for(part: Seq<char>, canon: Seq<char>) -> bool {
    part.len() > canon.len() && part.take(canon.len() as int) == canon && part[canon.len() as int]
        == '='
}

/// The part for a key, if there is one, is for that key and holds no `;`.
proof fn lemma_source_part(kv: Map<Seq<char>, Seq<char>>, canon: Seq<char>)
    requires
        no_semicolon(canon),
        identity::source_value(kv, canon) matches Some(v) ==> no_semicolon(v),
    ensures
        identity::source_part(kv, canon).len() <= 1,
        forall|i: int|
            0 <= i < identity::source_part(kv, canon).len() ==> part_for(
                #[trigger] identity::source_part(kv, canon)[i],
                canon,
            ) && no_semicolon(identity::source_part(kv, canon)[i]),
{
    reveal_strlit("=");
    if let Some(v) = identity::source_value(kv, canon) {
        let part = canon + "="@ + v;
        assert(part.take(canon.len() as int) =~= canon);
        assert forall|i: int| 0 <= i < part.len() implies #[trigger] part[i] != ';' by {
            if i < canon.len() {
                assert(part[i] == canon[i]);
            } else if i > canon.len() {
                assert(part[i] == v[i - canon.len() - 1]);
            }
        }
    }
}

/// The number of the key that a part is for, in the order of an identity.
spec fn part_number(part: Seq<char>) -> int {
    if part_for(part, "model"@) {
        1
    } else if part_for(part, "model-url"@) {
        2
    } else if part_for(part, "hf-repo"@) {
        3
    } else {
        4
    }
}

/// No part is for two keys.
proof fn lemma_part_number(part: Seq<char>)
    ensures
        part_for(part, "model"@) ==> part_number(part) == 1,
        part_for(part, "model-url"@) ==> part_number(part) == 2,
        part_for(part, "hf-repo"@) ==> part_number(part) == 3,
        part_for(part, "hf-file"@) ==> part_number(part) == 4,
{
    lemma_forms();
    if part_for(part, "model"@) {
        assert(part.take(5)[0] == part[0]);
    }
    if part_for(part, "model-url"@) {
        assert(part.take(9)[0] == part[0]);
        assert(part.take(9)[5] == part[5]);
    }
    if part_for(part, "hf-repo"@) {
        assert(part.take(7)[0] == part[0]);
        assert(part.take(7)[3] == part[3]);
    }
    if part_for(part, "hf-file"@) {
        assert(part.take(7)[0] == part[0]);
        assert(part.take(7)[3] == part[3]);
    }
}

/// All of `parts` have the number `n`, and there is at most one.
spec fn numbered(parts: Seq<Seq<char>>, n: int) -> bool {
    parts.len() <= 1 && (parts.len() == 1 ==> part_number(parts[0]) == n)
}

/// Parts with a number that stand before parts with others can be told apart.
proof fn lemma_split_parts(
    p: Seq<Seq<char>>,
    x: Seq<Seq<char>>,
    q: Seq<Seq<char>>,
    y: Seq<Seq<char>>,
    n: int,
)
    requires
        p + x == q + y,
        numbered(p, n),
        numbered(q, n),
        x.len() > 0 ==> part_number(x[0]) != n,
        y.len() > 0 ==> part_number(y[0]) != n,
    ensures
        p == q,
        x == y,
{
    if p.len() == 1 && q.len() == 0 {
        assert((p + x)[0] == p[0]);
        assert((q + y)[0] == y[0]);
    }
    if q.len() == 1 && p.len() == 0 {
        assert((p + x)[0] == x[0]);
        assert((q + y)[0] == q[0]);
    }
    assert(p =~= (p + x).take(p.len() as int));
    assert(q =~= (q + y).take(q.len() as int));
    assert(x =~= (p + x).skip(p.len() as int));
    assert(y =~= (q + y).skip(q.len() as int));
}

/// The four groups of parts can be told from the whole.
proof fn lemma_split_all(
    a: (Seq<Seq<char>>, Seq<Seq<char>>, Seq<Seq<char>>, Seq<Seq<char>>),
    b: (Seq<Seq<char>>, Seq<Seq<char>>, Seq<Seq<char>>, Seq<Seq<char>>),
)
    requires
        a.0 + a.1 + a.2 + a.3 == b.0 + b.1 + b.2 + b.3,
        numbered(a.0, 1) && numbered(a.1, 2) && numbered(a.2, 3) && numbered(a.3, 4),
        numbered(b.0, 1) && numbered(b.1, 2) && numbered(b.2, 3) && numbered(b.3, 4),
    ensures
        a == b,
{
    assert(a.0 + (a.1 + (a.2 + a.3)) =~= a.0 + a.1 + a.2 + a.3);
    assert(b.0 + (b.1 + (b.2 + b.3)) =~= b.0 + b.1 + b.2 + b.3);
    lemma_split_parts(a.0, a.1 + (a.2 + a.3), b.0, b.1 + (b.2 + b.3), 1);
    lemma_split_parts(a.1, a.2 + a.3, b.1, b.2 + b.3, 2);
    lemma_split_parts(a.2, a.3, b.2, b.3, 3);
}

/// Trimming makes no new characters.
proof fn lemma_trimmed_plain(s: Seq<char>)
    requires
        no_semicolon(s),
    ensures
        no_semicolon(text::trimmed(s)),
{
    text::lemma_trimmed_start(s);
    text::lemma_trimmed_end(text::trimmed_start(s));
}

/// A source value comes from one of the forms.
proof fn lemma_source_plain(kv: Map<Seq<char>, Seq<char>>)
    requires
        plain_sources(kv),
    ensures
        identity::source_value(kv, "model"@) matches Some(v) ==> no_semicolon(v),
        identity::source_value(kv, "model-url"@) matches Some(v) ==> no_semicolon(v),
        identity::source_value(kv, "hf-repo"@) matches Some(v) ==> no_semicolon(v),
        identity::source_value(kv, "hf-file"@) matches Some(v) ==> no_semicolon(v),
{
    law_form_priority(kv);
    assert forall|k: Seq<char>| kv.contains_key(k) implies no_semicolon(
        #[trigger] text::trimmed(kv[k]),
    ) by {
        lemma_trimmed_plain(kv[k]);
    }
}

/// The parts of an identity are numbered, not empty and hold no `;`.
proof fn lemma_numbered_parts(kv: Map<Seq<char>, Seq<char>>)
    requires
        plain_sources(kv),
    ensures
        numbered(identity::source_part(kv, "model"@), 1),
        numbered(identity::source_part(kv, "model-url"@), 2),
        numbered(identity::source_part(kv, "hf-repo"@), 3),
        numbered(identity::source_part(kv, "hf-file"@), 4),
        forall|i: int|
            0 <= i < identity::identity_parts(kv).len() ==> (
            #[trigger] identity::identity_parts(kv)[i]).len() > 0 && no_semicolon(
                identity::identity_parts(kv)[i],
            ),
{
    lemma_forms();
    lemma_source_plain(kv);
    let (p1, p2, p3, p4) = (
        identity::source_part(kv, "model"@),
        identity::source_part(kv, "model-url"@),
        identity::source_part(kv, "hf-repo"@),
        identity::source_part(kv, "hf-file"@),
    );
    lemma_source_part(kv, "model"@);
    lemma_source_part(kv, "model-url"@);
    lemma_source_part(kv, "hf-repo"@);
    lemma_source_part(kv, "hf-file"@);
    if p1.len() > 0 {
        lemma_part_number(p1[0]);
    }
    if p2.len() > 0 {
        lemma_part_number(p2[0]);
    }
    if p3.len() > 0 {
        lemma_part_number(p3[0]);
    }
    if p4.len() > 0 {
        lemma_part_number(p4[0]);
    }
    let all = identity::identity_parts(kv);
    assert forall|i: int| 0 <= i < all.len() implies (#[trigger] all[i]).len() > 0 && no_semicolon(
        all[i],
    ) by {
        if i < p1.len() {
            assert(all[i] == p1[i]);
        } else if i < p1.len() + p2.len() {
            assert(all[i] == p2[i - p1.len()]);
        } else if i < p1.len() + p2.len() + p3.len() {
            assert(all[i] == p3[i - p1.len() - p2.len()]);
        } else {
            assert(all[i] == p4[i - p1.len() - p2.len() - p3.len()]);
        }
    }
}

/// The same part holds the same value.
proof fn lemma_part_gives_value(
    a: Map<Seq<char>, Seq<char>>,
    b: Map<Seq<char>, Seq<char>>,
    canon: Seq<char>,
)
    requires
        identity::source_part(a, canon) == identity::source_part(b, canon),
    ensures
        identity::source_value(a, canon) == identity::source_value(b, canon),
{
    reveal_strlit("=");
    if let Some(v) = identity::source_value(a, canon) {
        if let Some(w) = identity::source_value(b, canon) {
            let part = identity::source_part(a, canon)[0];
            assert(part == identity::source_part(b, canon)[0]);
            assert(v =~= part.skip(canon.len() as int + 1));
            assert(w =~= part.skip(canon.len() as int + 1));
        } else {
            assert(identity::source_part(a, canon).len() == 1);
        }
    } else if let Some(w) = identity::source_value(b, canon) {
        assert(identity::source_part(b, canon).len() == 1);
    }
}

/// Two sections have the same model identity exactly if they name the same
/// sources, where no source holds `;`.
pub proof fn law_same_identity_same_sources(
    a: Map<Seq<char>, Seq<char>>,
    b: Map<Seq<char>, Seq<char>>,
)
    requires
        plain_sources(a),
        plain_sources(b),
    ensures
        (identity::model_identity(a) == identity::model_identity(b)) == same_sources(a, b),
{
    lemma_numbered_parts(a);
    lemma_numbered_parts(b);
    if identity::model_identity(a) == identity::model_identity(b) {
        lemma_join_injective(identity::identity_parts(a), identity::identity_parts(b));
        lemma_split_all(
            (
                identity::source_part(a, "model"@),
                identity::source_part(a, "model-url"@),
                identity::source_part(a, "hf-repo"@),
                identity::source_part(a, "hf-file"@),
            ),
            (
                identity::source_part(b, "model"@),
                identity::source_part(b, "model-url"@),
                identity::source_part(b, "hf-repo"@),
                identity::source_part(b, "hf-file"@),
            ),
        );
        lemma_part_gives_value(a, b, "model"@);
        lemma_part_gives_value(a, b, "model-url"@);
        lemma_part_gives_value(a, b, "hf-repo"@);
        lemma_part_gives_value(a, b, "hf-file"@);
    }
}

/// A section has an empty model identity exactly if it names no source.
pub proof fn law_empty_identity_no_source(kv: Map<Seq<char>, Seq<char>>)
    ensures
        (identity::model_identity(kv).len() == 0) == (identity::source_value(kv, "model"@) is None
            && identity::source_value(kv, "model-url"@) is None && identity::source_value(
            kv,
            "hf-repo"@,
        ) is None && identity::source_value(kv, "hf-file"@) is None),
{
    reveal_strlit("=");
    let parts = identity::identity_parts(kv);
    if parts.len() > 0 {
        assert(parts.last().len() > 0);
    }
}

/// One part more stands after `;`, or alone where there is no other.
proof fn lemma_join_one_more(parts: Seq<Seq<char>>, part: Seq<char>)
    ensures
        identity::joined_parts(parts.push(part)) == if parts.len() == 0 {
            part
        } else {
            identity::joined_parts(parts) + ";"@ + part
        },
{
    assert(parts.push(part).drop_last() =~= parts);
    assert(parts.push(part).last() == part);
}

/// A text after others, with `;` before it where there are any.
proof fn lemma_join_step(
    parts: Seq<Seq<char>>,
    whole: Seq<char>,
    kv: Map<Seq<char>, Seq<char>>,
    canon: Seq<char>,
)
    requires
        parts.len() == 0 ==> whole == Seq::<char>::empty(),
        parts.len() > 0 ==> whole == ";"@ + identity::joined_parts(parts),
    ensures
        ({
            let more = parts + identity::source_part(kv, canon);
            let longer = whole + match identity::source_value(kv, canon) {
                Some(v) => ";"@ + canon + "="@ + v,
                None => Seq::empty(),
            };
            &&& more.len() == 0 ==> longer == Seq::<char>::empty()
            &&& more.len() > 0 ==> longer == ";"@ + identity::joined_parts(more)
        }),
{
    let more = parts + identity::source_part(kv, canon);
    match identity::source_value(kv, canon) {
        Some(v) => {
            let part = canon + "="@ + v;
            assert(more =~= parts.push(part));
            lemma_join_one_more(parts, part);
            assert(";"@ + canon + "="@ + v =~= ";"@ + part);
            if parts.len() == 0 {
                assert(whole + (";"@ + part) =~= ";"@ + part);
            } else {
                assert(whole + (";"@ + part) =~= ";"@ + identity::joined_parts(more));
            }
        },
        None => {
            assert(more =~= parts);
            assert(whole + Seq::<char>::empty() =~= whole);
        },
    }
}

/// A model identity is `model=..`, `model-url=..`, `hf-repo=..` and
/// `hf-file=..`, those of them that have a value, in this order, with `;`
/// between them.
pub proof fn law_identity_is_spelled(kv: Map<Seq<char>, Seq<char>>)
    ensures
        ({
            let a = match identity::source_value(kv, "model"@) {
                Some(v) => ";"@ + "model"@ + "="@ + v,
                None => Seq::empty(),
            };
            let b = match identity::source_value(kv, "model-url"@) {
                Some(v) => ";"@ + "model-url"@ + "="@ + v,
                None => Seq::empty(),
            };
            let c = match identity::source_value(kv, "hf-repo"@) {
                Some(v) => ";"@ + "hf-repo"@ + "="@ + v,
                None => Seq::empty(),
            };
            let d = match identity::source_value(kv, "hf-file"@) {
                Some(v) => ";"@ + "hf-file"@ + "="@ + v,
                None => Seq::empty(),
            };
            let whole = a + b + c + d;
            identity::model_identity(kv) == if whole.len() == 0 {
                whole
            } else {
                whole.skip(1)
            }
        }),
{
    reveal_strlit(";");
    let none = Seq::<Seq<char>>::empty();
    let empty = Seq::<char>::empty();
    let p1 = none + identity::source_part(kv, "model"@);
    let p2 = p1 + identity::source_part(kv, "model-url"@);
    let p3 = p2 + identity::source_part(kv, "hf-repo"@);
    let p4 = p3 + identity::source_part(kv, "hf-file"@);
    let a = match identity::source_value(kv, "model"@) {
        Some(v) => ";"@ + "model"@ + "="@ + v,
        None => Seq::empty(),
    };
    let b = match identity::source_value(kv, "model-url"@) {
        Some(v) => ";"@ + "model-url"@ + "="@ + v,
        None => Seq::empty(),
    };
    let c = match identity::source_value(kv, "hf-repo"@) {
        Some(v) => ";"@ + "hf-repo"@ + "="@ + v,
        None => Seq::empty(),
    };
    let d = match identity::source_value(kv, "hf-file"@) {
        Some(v) => ";"@ + "hf-file"@ + "="@ + v,
        None => Seq::empty(),
    };
    assert(empty + a =~= a);
    lemma_join_step(none, empty, kv, "model"@);
    lemma_join_step(p1, a, kv, "model-url"@);
    lemma_join_step(p2, a + b, kv, "hf-repo"@);
    lemma_join_step(p3, a + b + c, kv, "hf-file"@);
    assert(p4 =~= identity::identity_parts(kv));
    let whole = a + b + c + d;
    if p4.len() > 0 {
        assert(whole.skip(1) =~= identity::joined_parts(p4));
    } else {
        assert(identity::model_identity(kv) =~= whole);
    }
}

/// A source has the value of that of its forms that comes first here and is
/// not blank, without white space at its ends: `model`, `m`; `mu`,
/// `model-url`; `hfr`, `hf-repo`, `hf`; `hff`, `hf-file`.
pub proof fn law_sources_come_from_forms(kv: Map<Seq<char>, Seq<char>>)
    ensures
        identity::source_value(kv, "model"@) == if kv.contains_key("model"@) && text::trimmed(
            kv["model"@],
        ).len() > 0 {
            Some(text::trimmed(kv["model"@]))
        } else if kv.contains_key("m"@) && text::trimmed(kv["m"@]).len() > 0 {
            Some(text::trimmed(kv["m"@]))
        } else {
            None
        },
        identity::source_value(kv, "model-url"@) == if kv.contains_key("mu"@) && text::trimmed(
            kv["mu"@],
        ).len() > 0 {
            Some(text::trimmed(kv["mu"@]))
        } else if kv.contains_key("model-url"@) && text::trimmed(kv["model-url"@]).len() > 0 {
            Some(text::trimmed(kv["model-url"@]))
        } else {
            None
        },
        identity::source_value(kv, "hf-repo"@) == if kv.contains_key("hfr"@) && text::trimmed(
            kv["hfr"@],
        ).len() > 0 {
            Some(text::trimmed(kv["hfr"@]))
        } else if kv.contains_key("hf-repo"@) && text::trimmed(kv["hf-repo"@]).len() > 0 {
            Some(text::trimmed(kv["hf-repo"@]))
        } else if kv.contains_key("hf"@) && text::trimmed(kv["hf"@]).len() > 0 {
            Some(text::trimmed(kv["hf"@]))
        } else {
            None
        },
        identity::source_value(kv, "hf-file"@) == if kv.contains_key("hff"@) && text::trimmed(
            kv["hff"@],
        ).len() > 0 {
            Some(text::trimmed(kv["hff"@]))
        } else if kv.contains_key("hf-file"@) && text::trimmed(kv["hf-file"@]).len() > 0 {
            Some(text::trimmed(kv["hf-file"@]))
        } else {
            None
        },
{
    law_form_priority(kv);
}

} // verus!
