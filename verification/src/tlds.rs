//! The fixed table of recognized top-level-domain labels.
//!
//! Generic extraction drops a trailing label only when it stands in this
//! table. The table is deliberately small and closed: a host whose real
//! top-level domain is missing here keeps that label, which then counts
//! toward the subdomain. It is built once, when a routing configuration is
//! created, and never changes afterwards.

use vstd::prelude::*;

use crate::scan::seq_views;

verus! {

/// The recognized top-level-domain labels, as lowercase ASCII byte strings.
pub open spec fn spec_known_tlds() -> Seq<Seq<u8>> {
    seq![
        seq![0x63, 0x6f, 0x6d],  // com
        seq![0x6e, 0x65, 0x74],  // net
        seq![0x6f, 0x72, 0x67],  // org
        seq![0x74, 0x72],  // tr
        seq![0x65, 0x64, 0x75],  // edu
        seq![0x67, 0x6f, 0x76],  // gov
        seq![0x69, 0x6f],  // io
        seq![0x64, 0x65, 0x76],  // dev
        seq![0x63, 0x6f],  // co
        seq![0x75, 0x6b],  // uk
        seq![0x69, 0x6e, 0x66, 0x6f],  // info
        seq![0x62, 0x69, 0x7a],  // biz
        seq![0x6d, 0x69, 0x6c],  // mil
        seq![0x69, 0x6e, 0x74],  // int
        seq![0x61, 0x72, 0x70, 0x61],  // arpa
        seq![0x6e, 0x61, 0x6d, 0x65],  // name
        seq![0x70, 0x72, 0x6f],  // pro
        seq![0x61, 0x65, 0x72, 0x6f],  // aero
        seq![0x63, 0x6f, 0x6f, 0x70],  // coop
        seq![0x6d, 0x75, 0x73, 0x65, 0x75, 0x6d],  // museum
        seq![0x6d, 0x6f, 0x62, 0x69],  // mobi
        seq![0x61, 0x73, 0x69, 0x61],  // asia
        seq![0x74, 0x65, 0x6c],  // tel
        seq![0x63, 0x61, 0x74],  // cat
        seq![0x6a, 0x6f, 0x62, 0x73],  // jobs
        seq![0x74, 0x72, 0x61, 0x76, 0x65, 0x6c],  // travel
        seq![0x75, 0x73],  // us
        seq![0x63, 0x61],  // ca
        seq![0x64, 0x65],  // de
        seq![0x66, 0x72],  // fr
        seq![0x61, 0x75],  // au
        seq![0x6a, 0x70],  // jp
        seq![0x63, 0x6e],  // cn
        seq![0x72, 0x75],  // ru
        seq![0x62, 0x72],  // br
        seq![0x69, 0x74],  // it
        seq![0x65, 0x73],  // es
        seq![0x6e, 0x6c],  // nl
        seq![0x73, 0x65],  // se
        seq![0x6e, 0x6f],  // no
        seq![0x66, 0x69],  // fi
        seq![0x64, 0x6b],  // dk
        seq![0x70, 0x6c],  // pl
        seq![0x63, 0x68],  // ch
        seq![0x62, 0x65],  // be
        seq![0x61, 0x74],  // at
    ]
}

/// Pushes the 2-byte label made of the given bytes.
fn push_label2(t: &mut Vec<Vec<u8>>, b0: u8, b1: u8)
    ensures
        seq_views(final(t)@) =~= seq_views(old(t)@).push(seq![b0, b1]),
{
    let mut v: Vec<u8> = Vec::new();
    v.push(b0);
    v.push(b1);
    proof {
        assert(v@ =~= seq![b0, b1]);
        crate::scan::lemma_seq_views_push(old(t)@, v);
    }
    t.push(v);
}

/// Pushes the 3-byte label made of the given bytes.
fn push_label3(t: &mut Vec<Vec<u8>>, b0: u8, b1: u8, b2: u8)
    ensures
        seq_views(final(t)@) =~= seq_views(old(t)@).push(seq![b0, b1, b2]),
{
    let mut v: Vec<u8> = Vec::new();
    v.push(b0);
    v.push(b1);
    v.push(b2);
    proof {
        assert(v@ =~= seq![b0, b1, b2]);
        crate::scan::lemma_seq_views_push(old(t)@, v);
    }
    t.push(v);
}

/// Pushes the 4-byte label made of the given bytes.
fn push_label4(t: &mut Vec<Vec<u8>>, b0: u8, b1: u8, b2: u8, b3: u8)
    ensures
        seq_views(final(t)@) =~= seq_views(old(t)@).push(seq![b0, b1, b2, b3]),
{
    let mut v: Vec<u8> = Vec::new();
    v.push(b0);
    v.push(b1);
    v.push(b2);
    v.push(b3);
    proof {
        assert(v@ =~= seq![b0, b1, b2, b3]);
        crate::scan::lemma_seq_views_push(old(t)@, v);
    }
    t.push(v);
}

/// Pushes the 6-byte label made of the given bytes.
fn push_label6(t: &mut Vec<Vec<u8>>, b0: u8, b1: u8, b2: u8, b3: u8, b4: u8, b5: u8)
    ensures
        seq_views(final(t)@) =~= seq_views(old(t)@).push(seq![b0, b1, b2, b3, b4, b5]),
{
    let mut v: Vec<u8> = Vec::new();
    v.push(b0);
    v.push(b1);
    v.push(b2);
    v.push(b3);
    v.push(b4);
    v.push(b5);
    proof {
        assert(v@ =~= seq![b0, b1, b2, b3, b4, b5]);
        crate::scan::lemma_seq_views_push(old(t)@, v);
    }
    t.push(v);
}

/// Builds the table of recognized top-level domains.
pub fn known_tlds() -> (t: Vec<Vec<u8>>)
    ensures
        seq_views(t@) == spec_known_tlds(),
{
    let mut t: Vec<Vec<u8>> = Vec::new();
    push_label3(&mut t, 0x63, 0x6f, 0x6d);  // com
    push_label3(&mut t, 0x6e, 0x65, 0x74);  // net
    push_label3(&mut t, 0x6f, 0x72, 0x67);  // org
    push_label2(&mut t, 0x74, 0x72);  // tr
    push_label3(&mut t, 0x65, 0x64, 0x75);  // edu
    push_label3(&mut t, 0x67, 0x6f, 0x76);  // gov
    push_label2(&mut t, 0x69, 0x6f);  // io
    push_label3(&mut t, 0x64, 0x65, 0x76);  // dev
    push_label2(&mut t, 0x63, 0x6f);  // co
    push_label2(&mut t, 0x75, 0x6b);  // uk
    push_label4(&mut t, 0x69, 0x6e, 0x66, 0x6f);  // info
    push_label3(&mut t, 0x62, 0x69, 0x7a);  // biz
    push_label3(&mut t, 0x6d, 0x69, 0x6c);  // mil
    push_label3(&mut t, 0x69, 0x6e, 0x74);  // int
    push_label4(&mut t, 0x61, 0x72, 0x70, 0x61);  // arpa
    push_label4(&mut t, 0x6e, 0x61, 0x6d, 0x65);  // name
    push_label3(&mut t, 0x70, 0x72, 0x6f);  // pro
    push_label4(&mut t, 0x61, 0x65, 0x72, 0x6f);  // aero
    push_label4(&mut t, 0x63, 0x6f, 0x6f, 0x70);  // coop
    push_label6(&mut t, 0x6d, 0x75, 0x73, 0x65, 0x75, 0x6d);  // museum
    push_label4(&mut t, 0x6d, 0x6f, 0x62, 0x69);  // mobi
    push_label4(&mut t, 0x61, 0x73, 0x69, 0x61);  // asia
    push_label3(&mut t, 0x74, 0x65, 0x6c);  // tel
    push_label3(&mut t, 0x63, 0x61, 0x74);  // cat
    push_label4(&mut t, 0x6a, 0x6f, 0x62, 0x73);  // jobs
    push_label6(&mut t, 0x74, 0x72, 0x61, 0x76, 0x65, 0x6c);  // travel
    push_label2(&mut t, 0x75, 0x73);  // us
    push_label2(&mut t, 0x63, 0x61);  // ca
    push_label2(&mut t, 0x64, 0x65);  // de
    push_label2(&mut t, 0x66, 0x72);  // fr
    push_label2(&mut t, 0x61, 0x75);  // au
    push_label2(&mut t, 0x6a, 0x70);  // jp
    push_label2(&mut t, 0x63, 0x6e);  // cn
    push_label2(&mut t, 0x72, 0x75);  // ru
    push_label2(&mut t, 0x62, 0x72);  // br
    push_label2(&mut t, 0x69, 0x74);  // it
    push_label2(&mut t, 0x65, 0x73);  // es
    push_label2(&mut t, 0x6e, 0x6c);  // nl
    push_label2(&mut t, 0x73, 0x65);  // se
    push_label2(&mut t, 0x6e, 0x6f);  // no
    push_label2(&mut t, 0x66, 0x69);  // fi
    push_label2(&mut t, 0x64, 0x6b);  // dk
    push_label2(&mut t, 0x70, 0x6c);  // pl
    push_label2(&mut t, 0x63, 0x68);  // ch
    push_label2(&mut t, 0x62, 0x65);  // be
    push_label2(&mut t, 0x61, 0x74);  // at
    proof {
        assert(seq_views(t@) =~= spec_known_tlds());
    }
    t
}

} // verus!
