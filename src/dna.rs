//! Nucleotides: complements, reading frames and translation by the
//! standard genetic code.
use vstd::prelude::*;
use crate::text::{chars_of, push_char, string_of};

verus! {

/// The complement of a nucleotide; anything unknown becomes `N`.
pub open spec fn complement_of(n: char) -> char {
    if n == 'a' {
        't'
    } else if n == 'c' {
        'g'
    } else if n == 'g' {
        'c'
    } else if n == 't' {
        'a'
    } else if n == 'n' {
        'n'
    } else if n == 'A' {
        'T'
    } else if n == 'C' {
        'G'
    } else if n == 'G' {
        'C'
    } else if n == 'T' {
        'A'
    } else {
        'N'
    }
}

pub fn complement(n: char) -> (r: char)
    ensures
        r == complement_of(n),
{
    match n {
        'a' => 't',
        'c' => 'g',
        'g' => 'c',
        't' => 'a',
        'n' => 'n',
        'A' => 'T',
        'C' => 'G',
        'G' => 'C',
        'T' => 'A',
        _ => 'N',
    }
}

/// The reverse complement of `s`.
pub open spec fn reverse_complement_of(s: Seq<char>) -> Seq<char> {
    s.reverse().map_values(|c: char| complement_of(c))
}

pub fn reverse_complement(s: &str) -> (r: String)
    ensures
        r@ == reverse_complement_of(s@),
{
    let v = chars_of(s);
    let mut r = String::new();
    let mut k: usize = v.len();
    while k > 0
        invariant
            k <= v@.len(),
            r@ == v@.subrange(k as int, v@.len() as int).reverse().map_values(|c: char| complement_of(c)),
        decreases k,
    {
        k = k - 1;
        push_char(&mut r, complement(v[k]));
        assert(r@ =~= v@.subrange(k as int, v@.len() as int).reverse().map_values(|c: char| complement_of(c)));
    }
    assert(v@.subrange(0, v@.len() as int) =~= v@);
    r
}

/// The whole codons of `s` read from `phase` on.
pub open spec fn frame_of(s: Seq<char>, phase: int) -> Seq<Seq<char>> {
    let n = if phase <= s.len() { (s.len() - phase) / 3 } else { 0 };
    Seq::new(n as nat, |k: int| s.subrange(phase + 3 * k, phase + 3 * k + 3))
}

/// The codons of `s` from `phase` on; a part codon at the end is left out,
/// and a phase beyond the end gives none.
pub fn frame(s: &str, phase: usize) -> (r: Vec<String>)
    ensures
        r@.len() == frame_of(s@, phase as int).len(),
        forall|k: int| 0 <= k < r@.len() ==> #[trigger] r@[k]@ == frame_of(s@, phase as int)[k],
{
    let v = chars_of(s);
    let mut r: Vec<String> = Vec::new();
    if phase > v.len() {
        return r;
    }
    let n = (v.len() - phase) / 3;
    let mut k: usize = 0;
    while k < n
        invariant
            v@ == s@,
            phase <= v.len(),
            n == (v.len() - phase) / 3,
            k <= n,
            r@.len() == k,
            forall|m: int| 0 <= m < k ==> #[trigger] r@[m]@ == frame_of(s@, phase as int)[m],
        decreases n - k,
    {
        assert(phase + 3 * k + 3 <= v.len()) by (nonlinear_arith)
            requires
                k < n,
                n == (v.len() - phase) / 3,
                phase <= v.len(),
        ;
        let i = phase + 3 * k;
        r.push(string_of(&v, i, i + 3));
        k = k + 1;
    }
    r
}

/// The standard genetic code, codons in the order `t`, `c`, `a`, `g` of
/// each base; stops are `*`.
pub open spec fn genetic_code() -> Seq<char> {
    seq![
        'F', 'F', 'L', 'L', 'S', 'S', 'S', 'S', 'Y', 'Y', '*', '*', 'C', 'C', '*', 'W',
        'L', 'L', 'L', 'L', 'P', 'P', 'P', 'P', 'H', 'H', 'Q', 'Q', 'R', 'R', 'R', 'R',
        'I', 'I', 'I', 'M', 'T', 'T', 'T', 'T', 'N', 'N', 'K', 'K', 'S', 'S', 'R', 'R',
        'V', 'V', 'V', 'V', 'A', 'A', 'A', 'A', 'D', 'D', 'E', 'E', 'G', 'G', 'G', 'G',
    ]
}

pub open spec fn base_index(c: char) -> int {
    if c == 't' {
        0
    } else if c == 'c' {
        1
    } else if c == 'a' {
        2
    } else if c == 'g' {
        3
    } else {
        -1
    }
}

/// The amino acid of a codon; anything but three lower-case bases is `*`.
pub open spec fn amino_acid_of(codon: Seq<char>) -> char {
    if codon.len() == 3 && base_index(codon[0]) >= 0 && base_index(codon[1]) >= 0
        && base_index(codon[2]) >= 0 {
        genetic_code()[16 * base_index(codon[0]) + 4 * base_index(codon[1]) + base_index(codon[2])]
    } else {
        '*'
    }
}

fn base(c: char) -> (r: Option<usize>)
    ensures
        match r {
            Some(i) => i == base_index(c) && i < 4,
            None => base_index(c) < 0,
        },
{
    match c {
        't' => Some(0),
        'c' => Some(1),
        'a' => Some(2),
        'g' => Some(3),
        _ => None,
    }
}

fn amino_acid(codon: &String, code: &Vec<char>) -> (r: char)
    requires
        code@ == genetic_code(),
    ensures
        r == amino_acid_of(codon@),
{
    let v = chars_of(codon.as_str());
    if v.len() != 3 {
        return '*';
    }
    match (base(v[0]), base(v[1]), base(v[2])) {
        (Some(a), Some(b), Some(c)) => code[16 * a + 4 * b + c],
        _ => '*',
    }
}

/// The protein that a run of codons codes for, one letter per codon.
pub open spec fn translation_of(codons: Seq<Seq<char>>) -> Seq<char> {
    codons.map_values(|c: Seq<char>| amino_acid_of(c))
}

pub fn translate(codons: &Vec<String>) -> (r: String)
    ensures
        r@ == translation_of(codons@.map_values(|c: String| c@)),
{
    let code = vec![
        'F', 'F', 'L', 'L', 'S', 'S', 'S', 'S', 'Y', 'Y', '*', '*', 'C', 'C', '*', 'W',
        'L', 'L', 'L', 'L', 'P', 'P', 'P', 'P', 'H', 'H', 'Q', 'Q', 'R', 'R', 'R', 'R',
        'I', 'I', 'I', 'M', 'T', 'T', 'T', 'T', 'N', 'N', 'K', 'K', 'S', 'S', 'R', 'R',
        'V', 'V', 'V', 'V', 'A', 'A', 'A', 'A', 'D', 'D', 'E', 'E', 'G', 'G', 'G', 'G',
    ];
    assert(code@ == genetic_code());
    let mut r = String::new();
    let mut k: usize = 0;
    while k < codons.len()
        invariant
            k <= codons@.len(),
            code@ == genetic_code(),
            r@ == translation_of(codons@.map_values(|c: String| c@).subrange(0, k as int)),
        decreases codons@.len() - k,
    {
        push_char(&mut r, amino_acid(&codons[k], &code));
        k = k + 1;
        assert(r@ =~= translation_of(codons@.map_values(|c: String| c@).subrange(0, k as int)));
    }
    assert(codons@.map_values(|c: String| c@).subrange(0, k as int) =~= codons@.map_values(|c: String| c@));
    r
}

} // verus!
