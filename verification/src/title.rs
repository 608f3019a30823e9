//! The tokenizer of titles: like that of bodies, but with no links of its
//! own, no blocks, no BBCode and no paragraphs.
use vstd::prelude::*;
use vstd::utf8::*;
use vstd::string::StringSliceAdditionalSpecFns;
use crate::prettify::{Piece, Token, pieces_of};
use crate::body::{
    esc, rep, step_end_ok, text_run, lemma_text_run, lemma_step_boundary, push_rep, esc_sub,
    html, one_html, simple_exec, text_run_exec,
};
use crate::scan::{
    angle_scan, angle_brackets, lemma_angle_scan_bounds, lemma_boundary_at, lex, lemma_lex_end,
    lexical_token_len, substr,
};

verus! {

/// Bytes that plain text in a title runs on over.
pub open spec fn title_normal(x: u8) -> bool {
    !(x == 60 || x == 64 || x == 35 || x == 32 || x == 10 || x == 42 || x == 40)
}

/// Text in angle brackets at the start of a title's rest `r`: a mention, a
/// reference, or text.
pub open spec fn title_angle_step(r: Seq<u8>) -> (Seq<Piece>, int) {
    let (bc, count) = angle_scan(r);
    let cont = r.subrange(bc, count);
    let opens = rep("&lt;"@, bc);
    let closes = rep("&gt;"@, bc);
    if cont.len() == 0 {
        (seq![Piece::Html(opens)], bc)
    } else if cont[0] == 64 {
        (
            seq![
                Piece::Html(opens),
                Piece::Mention(decode_utf8(cont.subrange(1, cont.len() as int))),
                Piece::Html(closes),
            ],
            bc + count,
        )
    } else if cont[0] == 35 {
        (
            seq![
                Piece::Html(opens),
                Piece::Hash(decode_utf8(cont.subrange(1, cont.len() as int))),
                Piece::Html(closes),
            ],
            bc + count,
        )
    } else {
        (seq![Piece::Html(opens + esc(cont) + closes)], bc + count)
    }
}

/// One step of the title tokenizer, for the text `r` that is left.
pub open spec fn title_step(r: Seq<u8>) -> (Seq<Piece>, int) {
    let c = r[0];
    if c == 60 {
        title_angle_step(r)
    } else if c == 64 {
        let l = lex(r.subrange(1, r.len() as int), 0, seq![], false);
        (seq![Piece::Mention(decode_utf8(r.subrange(1, 1 + l)))], 1 + l)
    } else if c == 35 {
        let l = lex(r.subrange(1, r.len() as int), 0, seq![], false);
        (seq![Piece::Hash(decode_utf8(r.subrange(1, 1 + l)))], 1 + l)
    } else if c == 32 {
        (seq![Piece::Html(" "@)], 1)
    } else {
        let i = text_run(r, 1, true);
        (seq![Piece::Html(esc(r.subrange(0, i)))], i)
    }
}

/// Every step of the title tokenizer goes forward and ends where a step of
/// the body tokenizer may end.
pub proof fn lemma_title_step_end(r: Seq<u8>)
    requires
        r.len() > 0,
    ensures
        step_end_ok(r, title_step(r).1),
{
    let c = r[0];
    if c == 60 {
        lemma_angle_scan_bounds(r);
        let (bc, count) = angle_scan(r);
        if bc < count {
            assert(r[count + (bc - 1)] == 62);
        }
    } else if c == 64 || c == 35 {
        let t = r.subrange(1, r.len() as int);
        lemma_lex_end(t, 0, seq![], false);
        let l = lex(t, 0, seq![], false);
        if l < t.len() {
            assert(t[l] == r[1 + l]);
        }
    } else if c == 32 {
    } else {
        lemma_text_run(r, 1, true);
    }
}

/// The pieces of the title text `b` from byte `p` on.
pub open spec fn title_pieces(b: Seq<u8>, p: int) -> Seq<Piece>
    decreases b.len() - p,
{
    if p < 0 || p >= b.len() {
        seq![]
    } else {
        let r = b.subrange(p, b.len() as int);
        let (ps, k) = title_step(r);
        proof {
            lemma_title_step_end(r);
        }
        ps + title_pieces(b, p + k)
    }
}

} // verus!

verus! {

/// Whether a byte is plain text in a title.
pub fn is_title_normal(x: u8) -> (r: bool)
    ensures
        r == title_normal(x),
{
    !(x == 60 || x == 64 || x == 35 || x == 32 || x == 10 || x == 42 || x == 40)
}

/// Text in angle brackets at byte `p` of the title `s`.
fn title_angle_exec(s: &str, p: usize) -> (res: (Vec<Token>, usize))
    requires
        p < s.spec_bytes().len(),
        is_char_boundary(s.spec_bytes(), p as int),
        s.spec_bytes()[p as int] == 60,
    ensures
        pieces_of(res.0@) == title_angle_step(
            s.spec_bytes().subrange(p as int, s.spec_bytes().len() as int),
        ).0,
        res.1 == p + title_angle_step(
            s.spec_bytes().subrange(p as int, s.spec_bytes().len() as int),
        ).1,
{
    let b = s.as_bytes();
    let ghost bb = b@;
    let ghost r = bb.subrange(p as int, bb.len() as int);
    let rs = vstd::slice::slice_subrange(b, p, b.len());
    assert(rs@[0] == 60);
    let (bc, count) = angle_brackets(rs);
    proof {
        lemma_angle_scan_bounds(r);
        encode_utf8_valid_utf8(s@);
        assert(bb[p + bc - 1] == r[bc - 1]);
        lemma_boundary_at(bb, p + bc);
        if bc < count {
            assert(r[count + (bc - 1)] == 62);
            assert(r[count + 0] == 62);
            assert(bb[p + count] == r[count as int]);
            lemma_boundary_at(bb, p + count);
        }
    }
    let cont = vstd::slice::slice_subrange(rs, bc, count);
    assert(bb.subrange(p + bc, p + count) =~= cont@);
    let mut h = String::new();
    push_rep(&mut h, "&lt;", bc);
    if cont.len() == 0 {
        return (one_html(h), p + bc);
    }
    if cont[0] == 64 || cont[0] == 35 {
        proof {
            assert(bb[p + bc] == cont@[0]);
            lemma_boundary_at(bb, p + bc + 1);
        }
        let name = substr(s, p + bc + 1, p + count).to_string();
        assert(bb.subrange(p + bc + 1, p + count) =~= cont@.subrange(1, cont@.len() as int));
        let mut ts: Vec<Token> = Vec::new();
        let mut closes = String::new();
        push_rep(&mut closes, "&gt;", bc);
        ts.push(html(h));
        if cont[0] == 64 {
            ts.push(Token::Mention(name));
        } else {
            ts.push(Token::Hash(name));
        }
        ts.push(html(closes));
        assert(pieces_of(ts@) =~= title_angle_step(r).0);
        return (ts, p + bc + count);
    }
    esc_sub(s, p + bc, p + count, &mut h);
    push_rep(&mut h, "&gt;", bc);
    (one_html(h), p + bc + count)
}

/// One step of the title tokenizer at byte `p` of `s`.
pub fn title_step_exec(s: &str, p: usize) -> (res: (Vec<Token>, usize))
    requires
        p < s.spec_bytes().len(),
        is_char_boundary(s.spec_bytes(), p as int),
    ensures
        pieces_of(res.0@) == title_step(
            s.spec_bytes().subrange(p as int, s.spec_bytes().len() as int),
        ).0,
        res.1 == p + title_step(s.spec_bytes().subrange(p as int, s.spec_bytes().len() as int)).1,
        is_char_boundary(s.spec_bytes(), res.1 as int),
{
    let b = s.as_bytes();
    let ghost bb = b@;
    let ghost r = bb.subrange(p as int, bb.len() as int);
    let rs = vstd::slice::slice_subrange(b, p, b.len());
    proof {
        encode_utf8_valid_utf8(s@);
        lemma_title_step_end(r);
        lemma_step_boundary(bb, p as int, title_step(r).1);
    }
    let c = b[p];
    if c == 60 {
        return title_angle_exec(s, p);
    }
    if c == 64 || c == 35 {
        let t = vstd::slice::slice_subrange(rs, 1, rs.len());
        let l = lexical_token_len(t, false);
        proof {
            lemma_boundary_at(bb, p + 1);
        }
        assert(bb.subrange(p + 1, p + 1 + l) =~= r.subrange(1, 1 + l));
        let name = substr(s, p + 1, p + 1 + l).to_string();
        let mut ts: Vec<Token> = Vec::new();
        if c == 64 {
            ts.push(Token::Mention(name));
        } else {
            ts.push(Token::Hash(name));
        }
        assert(pieces_of(ts@) =~= seq![ts@[0]@]);
        return (ts, p + 1 + l);
    }
    if c == 32 {
        return (simple_exec(" "), p + 1);
    }
    let i = text_run_exec(rs, 1, true);
    assert(bb.subrange(p as int, p + i) =~= r.subrange(0, i as int));
    let mut h = String::new();
    esc_sub(s, p, p + i, &mut h);
    (one_html(h), p + i)
}

/// The tokens of the title text `s`.
pub fn title_tokens(s: &str) -> (ts: Vec<Token>)
    ensures
        pieces_of(ts@) == title_pieces(s.spec_bytes(), 0),
{
    let b = s.as_bytes();
    let ghost bb = b@;
    proof {
        encode_utf8_valid_utf8(s@);
        crate::scan::lemma_boundary_iff(bb, 0);
        if bb.len() > 0 {
            is_char_boundary_iff_not_is_continuation_byte(bb, 0);
        }
    }
    let mut ts: Vec<Token> = Vec::new();
    let mut p: usize = 0;
    while p < b.len()
        invariant
            p <= bb.len(),
            b@ == bb,
            bb == s.spec_bytes(),
            is_char_boundary(bb, p as int),
            title_pieces(bb, 0) == pieces_of(ts@) + title_pieces(bb, p as int),
        decreases bb.len() - p,
    {
        let ghost r = bb.subrange(p as int, bb.len() as int);
        proof {
            lemma_title_step_end(r);
        }
        let (step_ts, q) = title_step_exec(s, p);
        let ghost old_ts = ts@;
        let mut st = step_ts;
        ts.append(&mut st);
        assert(pieces_of(ts@) =~= pieces_of(old_ts) + pieces_of(step_ts@));
        assert(pieces_of(old_ts) + (pieces_of(step_ts@) + title_pieces(bb, q as int))
            =~= pieces_of(ts@) + title_pieces(bb, q as int));
        p = q;
    }
    assert(pieces_of(ts@) + Seq::<Piece>::empty() =~= pieces_of(ts@));
    ts
}

} // verus!
