//! Bed bundles: matching `.bed`/`.bim`/`.fam` sibling files of one basename
//! of the shape `<prefix>_c<chromosome>_b<block>` into atomic bundles, and
//! grouping the bundles by chromosome.

use vstd::prelude::*;
use crate::data::chromosome::{chrom_le, chrom_str, parse_chrom_spec, Chromosome};
use crate::error::{Error, ErrorKind};
use crate::text::{all_digits, dec_str, dec_val, lex_le, parse_usize, split_parts, usize_to_string};

verus! {

/// The three member kinds of a bundle.
#[derive(Clone, Copy, PartialEq, Eq, Structural)]
pub enum FileType {
    Bed,
    Bim,
    Fam,
}

/// The file extension of a member kind.
pub open spec fn file_type_str(ft: FileType) -> Seq<char> {
    match ft {
        FileType::Bed => seq!['b', 'e', 'd'],
        FileType::Bim => seq!['b', 'i', 'm'],
        FileType::Fam => seq!['f', 'a', 'm'],
    }
}

impl FileType {
    /// The file extension of this member kind.
    pub fn text(&self) -> (r: &'static str)
        ensures
            r@ == file_type_str(*self),
    {
        proof {
            reveal_strlit("bed");
            reveal_strlit("bim");
            reveal_strlit("fam");
        }
        let r = match self {
            FileType::Bed => "bed",
            FileType::Bim => "bim",
            FileType::Fam => "fam",
        };
        proof {
            assert(r@ =~= file_type_str(*self));
        }
        r
    }
}

/// One matched triple of sibling files, identified by the shared basename's
/// prefix, chromosome and block index.
#[derive(Debug)]
pub struct BedBundle {
    pub prefix: String,
    pub chromosome: Chromosome,
    pub i_block: usize,
}

/// The mathematical value of a [`BedBundle`].
#[verifier::ext_equal]
pub struct BundleModel {
    pub prefix: Seq<char>,
    pub chromosome: Chromosome,
    pub i_block: nat,
}

impl View for BedBundle {
    type V = BundleModel;

    open spec fn view(&self) -> BundleModel {
        BundleModel {
            prefix: self.prefix@,
            chromosome: self.chromosome,
            i_block: self.i_block as nat,
        }
    }
}

impl DeepView for BedBundle {
    type V = BundleModel;

    open spec fn deep_view(&self) -> BundleModel {
        self.view()
    }
}

/// Total order on bundles: by prefix, then chromosome, then block index.
pub open spec fn bundle_le(a: BundleModel, b: BundleModel) -> bool {
    if a.prefix != b.prefix {
        lex_le(a.prefix, b.prefix)
    } else if a.chromosome != b.chromosome {
        chrom_le(a.chromosome, b.chromosome)
    } else {
        a.i_block <= b.i_block
    }
}

/// The bundle order is total, antisymmetric and transitive.
pub proof fn lemma_bundle_le_order(a: BundleModel, b: BundleModel, c: BundleModel)
    ensures
        bundle_le(a, b) || bundle_le(b, a),
        bundle_le(a, b) && bundle_le(b, a) ==> a == b,
        bundle_le(a, b) && bundle_le(b, c) ==> bundle_le(a, c),
{
    crate::text::lemma_lex_le_total(a.prefix, b.prefix);
    crate::data::chromosome::lemma_chrom_le_order(a.chromosome, b.chromosome, c.chromosome);
    crate::data::chromosome::lemma_chrom_le_order(b.chromosome, a.chromosome, c.chromosome);
    crate::text::lemma_lex_le_refl(a.prefix);
    crate::text::lemma_lex_le_refl(b.prefix);
    if bundle_le(a, b) && bundle_le(b, a) && a.prefix != b.prefix {
        crate::text::lemma_lex_le_antisym(a.prefix, b.prefix);
    }
    if bundle_le(a, b) && bundle_le(b, c) {
        crate::text::lemma_lex_le_trans(a.prefix, b.prefix, c.prefix);
        if a.prefix == c.prefix {
            if a.prefix != b.prefix {
                crate::text::lemma_lex_le_antisym(a.prefix, b.prefix);
            } else if b.prefix != c.prefix {
                crate::text::lemma_lex_le_antisym(b.prefix, c.prefix);
            }
        }
    }
}

/// Compares two bundles in the total order.
pub fn bundle_le_exec(a: &BedBundle, b: &BedBundle) -> (r: bool)
    ensures
        r == bundle_le(a@, b@),
{
    if !crate::text::str_eq(a.prefix.as_str(), b.prefix.as_str()) {
        crate::text::str_le(a.prefix.as_str(), b.prefix.as_str())
    } else if !(a.chromosome == b.chromosome) {
        crate::data::chromosome::chrom_le_exec(&a.chromosome, &b.chromosome)
    } else {
        a.i_block <= b.i_block
    }
}

/// What a bundle basename denotes, if anything: exactly three
/// underscore-separated pieces, the prefix, the chromosome token, and `b`
/// followed by the block index.
pub open spec fn parse_bundle_spec(base: Seq<char>) -> Option<BundleModel> {
    let parts = split_parts(base);
    if parts.len() != 3 {
        None
    } else {
        match parse_chrom_spec(parts[1]) {
            None => None,
            Some(chromosome) => {
                let p = parts[2];
                if p.len() > 1 && p[0] == 'b' && all_digits(p.skip(1)) && dec_val(p.skip(1))
                    <= usize::MAX {
                    Some(
                        BundleModel {
                            prefix: parts[0],
                            chromosome,
                            i_block: dec_val(p.skip(1)),
                        },
                    )
                } else {
                    None
                }
            },
        }
    }
}

/// The canonical basename of a bundle.
pub open spec fn bundle_basename_str(b: BundleModel) -> Seq<char> {
    b.prefix + seq!['_', 'c'] + chrom_str(b.chromosome) + seq!['_', 'b'] + dec_str(b.i_block)
}

impl BedBundle {
    /// The error for a basename that does not fit the bundle grammar.
    pub fn cannot_parse(basename: &str) -> (e: Error)
        ensures
            e.kind_spec() == ErrorKind::Udix,
    {
        proof {
            reveal_strlit("Cannot parse '");
            reveal_strlit("' as <prefix>_c<chromosome>_b<i_block>");
        }
        let message = String::from_str("Cannot parse '").concat(basename).concat(
            "' as <prefix>_c<chromosome>_b<i_block>",
        );
        Error::new(ErrorKind::Udix, message, None)
    }

    /// Parses a bundle basename.
    pub fn parse(basename: &str) -> (r: Result<BedBundle, Error>)
        ensures
            match r {
                Ok(b) => parse_bundle_spec(basename@) == Some(b@) && b.chromosome.wf(),
                Err(e) => parse_bundle_spec(basename@) is None && (e.kind_spec()
                    == ErrorKind::Udix || e.kind_spec() == ErrorKind::ParseInt),
            },
    {
        let parts = crate::text::split_underscores(basename);
        if parts.len() != 3 {
            return Err(BedBundle::cannot_parse(basename));
        }
        let chromosome = match Chromosome::parse(parts[1].as_str()) {
            Ok(c) => c,
            Err(e) => {
                return Err(e);
            },
        };
        proof {
            reveal_strlit("b");
        }
        let third: &str = parts[2].as_str();
        let idx_digits = match crate::text::strip_prefix_str(third, "b") {
            Some(rest) => rest,
            None => {
                proof {
                    assert(third@.len() >= 1 && third@[0] == 'b' ==> third@.take(1) =~= "b"@);
                }
                return Err(BedBundle::cannot_parse(basename));
            },
        };
        proof {
            assert(third@.take(1)[0] == third@[0]);
            assert(idx_digits@ == third@.skip(1));
        }
        let i_block = match parse_usize(idx_digits) {
            Some(n) => n,
            None => {
                return Err(BedBundle::cannot_parse(basename));
            },
        };
        proof {
            assert(third@.len() > 1) by {
                assert(idx_digits@.len() > 0);
            }
        }
        let prefix = String::from_str(parts[0].as_str());
        Ok(BedBundle { prefix, chromosome, i_block })
    }

    /// Renders the canonical basename of this bundle.
    pub fn basename(&self) -> (r: String)
        requires
            self.chromosome.wf(),
        ensures
            r@ == bundle_basename_str(self@),
    {
        proof {
            reveal_strlit("_c");
            reveal_strlit("_b");
        }
        let r = self.prefix.clone().concat("_c").concat(self.chromosome.text().as_str()).concat(
            "_b",
        ).concat(usize_to_string(self.i_block).as_str());
        proof {
            assert(r@ =~= bundle_basename_str(self@));
        }
        r
    }

    /// Renders the bundle for a listing: its basename with the three
    /// member extensions.
    pub fn text(&self) -> (r: String)
        requires
            self.chromosome.wf(),
        ensures
            r@ == bundle_basename_str(self@) + seq![
                '.', '{', 'b', 'e', 'd', ',', 'b', 'i', 'm', ',', 'f', 'a', 'm', '}',
            ],
    {
        proof {
            reveal_strlit(".{bed,bim,fam}");
        }
        let r = self.basename().concat(".{bed,bim,fam}");
        proof {
            assert(r@ =~= bundle_basename_str(self@) + seq![
                '.', '{', 'b', 'e', 'd', ',', 'b', 'i', 'm', ',', 'f', 'a', 'm', '}',
            ]);
        }
        r
    }

    /// The name of this bundle's member file of the given kind.
    pub fn file_name(&self, file_type: &FileType) -> (r: String)
        requires
            self.chromosome.wf(),
        ensures
            r@ == bundle_basename_str(self@) + seq!['.'] + file_type_str(*file_type),
    {
        proof {
            reveal_strlit(".");
        }
        let r = self.basename().concat(".").concat(file_type.text());
        proof {
            assert(r@ =~= bundle_basename_str(self@) + seq!['.'] + file_type_str(*file_type));
        }
        r
    }
}

/// The mathematical state of a [`FileMatchBuffer`]: which member kinds of
/// the pending bundle have been seen, and the basename seen most recently.
#[verifier::ext_equal]
pub struct BufModel {
    pub basename: Seq<char>,
    pub got_bed: bool,
    pub got_bim: bool,
    pub got_fam: bool,
}

/// Whether the flag for a member kind is set.
pub open spec fn got_spec(m: BufModel, ft: FileType) -> bool {
    match ft {
        FileType::Bed => m.got_bed,
        FileType::Bim => m.got_bim,
        FileType::Fam => m.got_fam,
    }
}

/// The state after accepting a member of the given kind and basename.
pub open spec fn set_got(m: BufModel, ft: FileType, base: Seq<char>) -> BufModel {
    match ft {
        FileType::Bed => BufModel { basename: base, got_bed: true, ..m },
        FileType::Bim => BufModel { basename: base, got_bim: true, ..m },
        FileType::Fam => BufModel { basename: base, got_fam: true, ..m },
    }
}

/// All three member kinds have been seen.
pub open spec fn all_got(m: BufModel) -> bool {
    m.got_bed && m.got_bim && m.got_fam
}

/// No member kind is pending.
pub open spec fn buf_empty(m: BufModel) -> bool {
    !m.got_bed && !m.got_bim && !m.got_fam
}

/// The state after a bundle closes: the flags reset, the basename kept.
pub open spec fn clear_flags(m: BufModel) -> BufModel {
    BufModel { got_bed: false, got_bim: false, got_fam: false, ..m }
}

/// The would-be name of the pending bundle's member of a given kind.
pub open spec fn buf_file_name_str(m: BufModel, ft: FileType) -> Seq<char> {
    m.basename + seq!['.'] + file_type_str(ft)
}

/// `"a"` for a member that was seen, `"no"` for one that was not.
pub open spec fn quantifier_str(got_one: bool) -> Seq<char> {
    if got_one {
        seq!['a']
    } else {
        seq!['n', 'o']
    }
}

/// The diagnostic for a mismatched triple: which member kinds were and were
/// not seen, with their would-be file names.
pub open spec fn unmatched_msg(m: BufModel) -> Seq<char> {
    seq!['G', 'o', 't', ' '] + quantifier_str(m.got_bed) + seq![' '] + buf_file_name_str(
        m,
        FileType::Bed,
    ) + seq![',', ' '] + quantifier_str(m.got_bim) + seq![' '] + buf_file_name_str(
        m,
        FileType::Bim,
    ) + seq![',', ' ', 'a', 'n', 'd', ' '] + quantifier_str(m.got_fam) + seq![' ']
        + buf_file_name_str(m, FileType::Fam) + seq!['.']
}

/// The matcher for bed/bim/fam triples: three flags and the basename of the
/// most recently accepted member. A second member of a kind already pending
/// is an error; when all three kinds are present the bundle closes and the
/// flags reset.
pub struct FileMatchBuffer {
    basename: String,
    got_bed: bool,
    got_bim: bool,
    got_fam: bool,
}

impl View for FileMatchBuffer {
    type V = BufModel;

    closed spec fn view(&self) -> BufModel {
        BufModel {
            basename: self.basename@,
            got_bed: self.got_bed,
            got_bim: self.got_bim,
            got_fam: self.got_fam,
        }
    }
}

/// The state of a fresh matcher.
pub open spec fn init_buf() -> BufModel {
    BufModel { basename: Seq::empty(), got_bed: false, got_bim: false, got_fam: false }
}

impl FileMatchBuffer {
    /// A fresh matcher with nothing pending.
    pub fn new() -> (r: FileMatchBuffer)
        ensures
            r@ == init_buf(),
    {
        let basename = String::new();
        let r = FileMatchBuffer { basename, got_bed: false, got_bim: false, got_fam: false };
        proof {
            assert(r@ =~= init_buf());
        }
        r
    }

    /// Whether the flag for a member kind is set.
    pub fn got_file_type(&self, file_type: &FileType) -> (r: bool)
        ensures
            r == got_spec(self@, *file_type),
    {
        match file_type {
            FileType::Bed => self.got_bed,
            FileType::Bim => self.got_bim,
            FileType::Fam => self.got_fam,
        }
    }

    /// The would-be name of the pending bundle's member of a given kind.
    pub fn file_name(&self, file_type: &FileType) -> (r: String)
        ensures
            r@ == buf_file_name_str(self@, *file_type),
    {
        proof {
            reveal_strlit(".");
        }
        let r = self.basename.clone().concat(".").concat(file_type.text());
        proof {
            assert(r@ =~= buf_file_name_str(self@, *file_type));
        }
        r
    }

    /// The diagnostic for a mismatched triple.
    pub fn unmatched_error(&self) -> (e: Error)
        ensures
            e.kind_spec() == ErrorKind::Udix,
            e.message_spec() == unmatched_msg(self@),
    {
        proof {
            reveal_strlit("Got ");
            reveal_strlit(" ");
            reveal_strlit(", ");
            reveal_strlit(", and ");
            reveal_strlit(".");
            reveal_strlit("a");
            reveal_strlit("no");
        }
        let q_bed = if self.got_bed {
            "a"
        } else {
            "no"
        };
        let q_bim = if self.got_bim {
            "a"
        } else {
            "no"
        };
        let q_fam = if self.got_fam {
            "a"
        } else {
            "no"
        };
        let message = String::from_str("Got ").concat(q_bed).concat(" ").concat(
            self.file_name(&FileType::Bed).as_str(),
        ).concat(", ").concat(q_bim).concat(" ").concat(
            self.file_name(&FileType::Bim).as_str(),
        ).concat(", and ").concat(q_fam).concat(" ").concat(
            self.file_name(&FileType::Fam).as_str(),
        ).concat(".");
        proof {
            assert(q_bed@ =~= quantifier_str(self.got_bed));
            assert(q_bim@ =~= quantifier_str(self.got_bim));
            assert(q_fam@ =~= quantifier_str(self.got_fam));
            assert(message@ =~= unmatched_msg(self@));
        }
        Error::new(ErrorKind::Udix, message, None)
    }

    /// Nothing is pending.
    pub fn is_empty(&self) -> (r: bool)
        ensures
            r == buf_empty(self@),
    {
        (!self.got_bed) && (!self.got_bim) && (!self.got_fam)
    }

    /// Accepts one member file. A member of a kind already pending is an
    /// error; the third distinct kind closes the bundle, resets the flags,
    /// and parses the basename.
    pub fn push(&mut self, file_type: &FileType, basename: &str) -> (r: Result<
        Option<BedBundle>,
        Error,
    >)
        ensures
            got_spec(old(self)@, *file_type) ==> final(self)@ == old(self)@ && match r {
                Err(e) => e.kind_spec() == ErrorKind::Udix && e.message_spec() == unmatched_msg(
                    old(self)@,
                ),
                Ok(_) => false,
            },
            !got_spec(old(self)@, *file_type) ==> ({
                let m1 = set_got(old(self)@, *file_type, basename@);
                if all_got(m1) {
                    final(self)@ == clear_flags(m1) && match r {
                        Ok(opt) => match opt {
                            Some(bundle) => parse_bundle_spec(basename@) == Some(bundle@)
                                && bundle.chromosome.wf(),
                            None => false,
                        },
                        Err(e) => parse_bundle_spec(basename@) is None && (e.kind_spec()
                            == ErrorKind::Udix || e.kind_spec() == ErrorKind::ParseInt),
                    }
                } else {
                    final(self)@ == m1 && r is Ok && (r matches Ok(opt) ==> opt is None)
                }
            }),
    {
        if self.got_file_type(file_type) {
            Err(self.unmatched_error())
        } else {
            self.basename = String::from_str(basename);
            match file_type {
                FileType::Bed => {
                    self.got_bed = true;
                },
                FileType::Bim => {
                    self.got_bim = true;
                },
                FileType::Fam => {
                    self.got_fam = true;
                },
            }
            proof {
                assert(self@ =~= set_got(old(self)@, *file_type, basename@));
            }
            if self.got_bed && self.got_bim && self.got_fam {
                self.got_bed = false;
                self.got_bim = false;
                self.got_fam = false;
                proof {
                    assert(self@ =~= clear_flags(set_got(old(self)@, *file_type, basename@)));
                }
                match BedBundle::parse(basename) {
                    Ok(bundle) => Ok(Some(bundle)),
                    Err(e) => Err(e),
                }
            } else {
                Ok(None)
            }
        }
    }
}


/// A sequence of sequences ordered lexicographically.
pub open spec fn lines_sorted(s: Seq<Seq<char>>) -> bool {
    forall|i: int, j: int| 0 <= i < j < s.len() ==> lex_le(#[trigger] s[i], #[trigger] s[j])
}

/// A sequence of bundles in ascending bundle order.
pub open spec fn bundles_sorted(s: Seq<BundleModel>) -> bool {
    forall|i: int, j: int| 0 <= i < j < s.len() ==> bundle_le(#[trigger] s[i], #[trigger] s[j])
}

/// Two sequences sorted by a reflexive, antisymmetric order and holding the
/// same elements are the same sequence.
pub proof fn lemma_sorted_multiset_unique<A>(a: Seq<A>, b: Seq<A>, leq: spec_fn(A, A) -> bool)
    requires
        vstd::relations::sorted_by(a, leq),
        vstd::relations::sorted_by(b, leq),
        forall|x: A| #[trigger] leq(x, x),
        forall|x: A, y: A| #[trigger] leq(x, y) && #[trigger] leq(y, x) ==> x == y,
        a.to_multiset() == b.to_multiset(),
    ensures
        a == b,
    decreases a.len(),
{
    broadcast use vstd::seq_lib::group_to_multiset_ensures;

    if a.len() == 0 {
        assert(b.to_multiset().len() == 0);
        assert(a =~= b);
    } else {
        assert(b.to_multiset().len() == a.len());
        assert(b.len() == a.len());
        assert(a.contains(a[0]));
        assert(b.to_multiset().count(a[0]) > 0);
        assert(b.contains(a[0]));
        let j = choose|j: int| 0 <= j < b.len() && b[j] == a[0];
        assert(leq(b[0], a[0])) by {
            if j > 0 {
                assert(leq(b[0], b[j]));
            }
        }
        assert(b.contains(b[0]));
        assert(a.to_multiset().count(b[0]) > 0);
        assert(a.contains(b[0]));
        let i = choose|i: int| 0 <= i < a.len() && a[i] == b[0];
        assert(leq(a[0], b[0])) by {
            if i > 0 {
                assert(leq(a[0], a[i]));
            }
        }
        assert(a[0] == b[0]);
        let ar = a.drop_first();
        let br = b.drop_first();
        assert(a.remove(0) =~= ar);
        assert(b.remove(0) =~= br);
        assert(ar.to_multiset() =~= a.to_multiset().remove(a[0]));
        assert(br.to_multiset() =~= b.to_multiset().remove(b[0]));
        assert(ar.to_multiset() == br.to_multiset());
        assert(vstd::relations::sorted_by(ar, leq)) by {
            assert(forall|p: int, q: int|
                0 <= p < q < ar.len() ==> #[trigger] ar[p] == a[p + 1] && #[trigger] ar[q] == a[q
                    + 1]);
        }
        assert(vstd::relations::sorted_by(br, leq)) by {
            assert(forall|p: int, q: int|
                0 <= p < q < br.len() ==> #[trigger] br[p] == b[p + 1] && #[trigger] br[q] == b[q
                    + 1]);
        }
        lemma_sorted_multiset_unique(ar, br, leq);
        assert(a =~= b) by {
            assert(forall|k: int| 1 <= k < a.len() ==> #[trigger] a[k] == ar[k - 1]);
            assert(forall|k: int| 1 <= k < b.len() ==> #[trigger] b[k] == br[k - 1]);
        }
    }
}

/// Sorts listing lines lexicographically, without touching the input.
pub fn sort_lines(lines: &Vec<String>) -> (r: Vec<String>)
    ensures
        lines_sorted(r.deep_view()),
        r.deep_view().to_multiset() == lines.deep_view().to_multiset(),
{
    broadcast use vstd::seq_lib::to_multiset_insert, vstd::seq_lib::group_to_multiset_ensures;

    let mut r: Vec<String> = Vec::new();
    let mut i: usize = 0;
    proof {
        assert(r.deep_view() =~= Seq::<Seq<char>>::empty());
        assert(lines.deep_view().take(0) =~= Seq::<Seq<char>>::empty());
        assert(Seq::<Seq<char>>::empty().to_multiset() =~= lines.deep_view().take(
            0,
        ).to_multiset());
    }
    while i < lines.len()
        invariant
            0 <= i <= lines.len(),
            lines.deep_view().len() == lines.len(),
            lines_sorted(r.deep_view()),
            r.deep_view().to_multiset() == lines.deep_view().take(i as int).to_multiset(),
        decreases lines.len() - i,
    {
        let ghost pre = r.deep_view();
        let s = lines[i].clone();
        let mut j: usize = 0;
        while j < r.len() && crate::text::str_le(r[j].as_str(), s.as_str())
            invariant
                0 <= j <= r.len(),
                0 <= i < lines.len(),
                lines.deep_view().len() == lines.len(),
                pre == r.deep_view(),
                pre.len() == r.len(),
                s@ == lines.deep_view()[i as int],
                forall|k: int| 0 <= k < j ==> lex_le(#[trigger] pre[k], s@),
            decreases r.len() - j,
        {
            j = j + 1;
        }
        proof {
            if j < r.len() {
                crate::text::lemma_lex_le_total(pre[j as int], s@);
            }
        }
        r.insert(j, s);
        proof {
            vstd::seq_lib::to_multiset_insert(pre, j as int, lines.deep_view()[i as int]);
            lines.deep_view().take(i as int).to_multiset_ensures();
            assert(r.deep_view() =~= pre.insert(j as int, lines.deep_view()[i as int]));
            assert(lines.deep_view().take(i + 1).drop_last() =~= lines.deep_view().take(i as int));
            assert(lines.deep_view().take(i + 1).last() == lines.deep_view()[i as int]);
            assert(lines.deep_view().take(i + 1) =~= lines.deep_view().take(i as int).push(
                lines.deep_view()[i as int],
            ));
            let new = r.deep_view();
            assert(lines_sorted(new)) by {
                assert(forall|k: int| 0 <= k < j ==> #[trigger] new[k] == pre[k]);
                assert(new[j as int] == s@);
                assert(forall|k: int| j < k < new.len() ==> #[trigger] new[k] == pre[k - 1]);
                assert forall|k1: int, k2: int|
                    0 <= k1 < k2 < new.len() implies lex_le(new[k1], new[k2]) by {
                    if k2 == j {
                        assert(lex_le(pre[k1], s@));
                    } else if k1 == j {
                        assert(!lex_le(pre[k2 - 1], s@) ==> lex_le(s@, pre[k2 - 1])) by {
                            crate::text::lemma_lex_le_total(pre[k2 - 1], s@);
                        }
                        if j < pre.len() && j < k2 - 1 {
                            crate::text::lemma_lex_le_trans(s@, pre[j as int], pre[k2 - 1]);
                            assert(lex_le(s@, pre[j as int])) by {
                                crate::text::lemma_lex_le_total(pre[j as int], s@);
                            }
                        }
                    } else {
                        let m1: int = if k1 < j { k1 } else { k1 - 1 };
                        let m2: int = if k2 < j { k2 } else { k2 - 1 };
                        assert(new[k1] == pre[m1] && new[k2] == pre[m2]);
                        assert(lex_le(pre[m1], pre[m2]));
                    }
                }
            }
        }
        i = i + 1;
    }
    proof {
        assert(lines.deep_view().take(lines.len() as int) =~= lines.deep_view());
    }
    r
}

/// Sorts bundles in ascending bundle order.
#[verifier::rlimit(50)]
fn sort_bundles(bundles: &mut Vec<BedBundle>)
    ensures
        bundles_sorted(final(bundles).deep_view()),
        final(bundles).deep_view().to_multiset() == old(bundles).deep_view().to_multiset(),
{
    if bundles.len() <= 1 {
        return;
    }
    let mut i: usize = 1;
    while i < bundles.len()
        invariant
            1 <= i <= bundles.len(),
            bundles.deep_view().len() == bundles.len(),
            bundles_sorted(bundles.deep_view().take(i as int)),
            bundles.deep_view().to_multiset() == old(bundles).deep_view().to_multiset(),
        decreases bundles.len() - i,
    {
        broadcast use vstd::seq_lib::to_multiset_insert, vstd::seq_lib::group_to_multiset_ensures;

        let ghost pre = bundles.deep_view();
        let x = bundles.remove(i);
        proof {
            assert(bundles.deep_view() =~= pre.remove(i as int));
            assert(pre.remove(i as int).to_multiset() =~= pre.to_multiset().remove(pre[i as int]));
        }
        let ghost mid = bundles.deep_view();
        let mut j: usize = i;
        while j > 0 && !bundle_le_exec(&bundles[j - 1], &x)
            invariant
                0 <= j <= i,
                i < pre.len(),
                mid == bundles.deep_view(),
                mid.len() == pre.len() - 1,
                i <= mid.len(),
                forall|jj: int| j <= jj < i ==> bundle_le(x@, #[trigger] mid[jj]),
            decreases j,
        {
            proof {
                lemma_bundle_le_order(x@, bundles.deep_view()[j - 1], x@);
            }
            j = j - 1;
        }
        bundles.insert(j, x);
        proof {
            assert(bundles.deep_view() =~= mid.insert(j as int, x@));
            assert(mid.insert(j as int, x@).to_multiset() == mid.to_multiset().insert(x@));
            assert(bundles.deep_view().to_multiset() =~= pre.to_multiset()) by {
                assert(pre[i as int] == x@);
                assert(mid.to_multiset() == pre.to_multiset().remove(x@));
                assert(pre.to_multiset().contains(x@)) by {
                    assert(pre.contains(x@));
                }
            }
            assert(mid.take(i as int) =~= pre.take(i as int));
            let new = bundles.deep_view();
            assert(bundles_sorted(new.take(i as int + 1))) by {
                let t = new.take(i as int + 1);
                assert(forall|k: int| 0 <= k < j ==> #[trigger] t[k] == mid[k]);
                assert(t[j as int] == x@);
                assert(forall|k: int| j < k < t.len() ==> #[trigger] t[k] == mid[k - 1]);
                assert forall|k1: int, k2: int|
                    0 <= k1 < k2 < t.len() implies bundle_le(t[k1], t[k2]) by {
                    if k2 == j {
                        assert(k1 < j);
                        assert(bundle_le(mid[j - 1], x@));
                        if k1 < j - 1 {
                            assert(bundle_le(mid[k1], mid[j - 1]));
                            lemma_bundle_le_order(mid[k1], mid[j - 1], x@);
                        }
                    } else if k1 == j {
                        assert(bundle_le(x@, mid[k2 - 1]));
                    } else {
                        let m1: int = if k1 < j { k1 } else { k1 - 1 };
                        let m2: int = if k2 < j { k2 } else { k2 - 1 };
                        assert(t[k1] == mid[m1] && t[k2] == mid[m2]);
                        assert(bundle_le(mid[m1], mid[m2]));
                    }
                }
            }
        }
        i = i + 1;
    }
    proof {
        assert(bundles.deep_view().take(i as int) =~= bundles.deep_view());
    }
}

/// Which bundle-member entry a listing line is, if any: its member kind and
/// its basename.
pub open spec fn line_entry(line: Seq<char>) -> Option<(FileType, Seq<char>)> {
    if crate::text::has_suffix(line, seq!['.', 'b', 'e', 'd']) {
        Some((FileType::Bed, line.take(line.len() - 4)))
    } else if crate::text::has_suffix(line, seq!['.', 'b', 'i', 'm']) {
        Some((FileType::Bim, line.take(line.len() - 4)))
    } else if crate::text::has_suffix(line, seq!['.', 'f', 'a', 'm']) {
        Some((FileType::Fam, line.take(line.len() - 4)))
    } else {
        None
    }
}

/// The run of the matcher over the listing lines in order, from a given
/// state with given completed bundles: the final state and all completed
/// bundles, or nothing once a duplicate member or a bad basename is hit.
pub open spec fn bed_scan(lines: Seq<Seq<char>>, m: BufModel, acc: Seq<BundleModel>) -> Option<
    (BufModel, Seq<BundleModel>),
>
    decreases lines.len(),
{
    if lines.len() == 0 {
        Some((m, acc))
    } else {
        match line_entry(lines.first()) {
            None => bed_scan(lines.drop_first(), m, acc),
            Some((ft, base)) => {
                if got_spec(m, ft) {
                    None
                } else {
                    let m1 = set_got(m, ft, base);
                    if all_got(m1) {
                        match parse_bundle_spec(base) {
                            None => None,
                            Some(b) => bed_scan(lines.drop_first(), clear_flags(m1), acc.push(b)),
                        }
                    } else {
                        bed_scan(lines.drop_first(), m1, acc)
                    }
                }
            },
        }
    }
}

/// Collects the bed bundles named by a remote listing: the lines are taken
/// in lexicographic order, matched into triples, and the completed bundles
/// sorted. A duplicate member, a bad basename, or members left unmatched at
/// the end abort the pass.
pub fn get_bed_bundles(lines: &Vec<String>) -> (r: Result<Vec<BedBundle>, Error>)
    ensures
        r matches Ok(v) ==> bundles_sorted(v.deep_view()) && (forall|k: int|
            0 <= k < v.len() ==> (#[trigger] v.deep_view()[k]).chromosome.wf()),
        forall|sl: Seq<Seq<char>>|
            #[trigger] lines_sorted(sl) && sl.to_multiset() == lines.deep_view().to_multiset()
                ==> match bed_scan(sl, init_buf(), Seq::empty()) {
                None => r is Err,
                Some((m, bs)) => if buf_empty(m) {
                    match r {
                        Ok(v) => bundles_sorted(v.deep_view()) && v.deep_view().to_multiset()
                            == bs.to_multiset() && (forall|k: int|
                            0 <= k < v.len() ==> (#[trigger] v.deep_view()[k]).chromosome.wf()),
                        Err(_) => false,
                    }
                } else {
                    match r {
                        Ok(_) => false,
                        Err(e) => e.kind_spec() == ErrorKind::Udix && e.message_spec()
                            == unmatched_msg(m),
                    }
                },
            },
{
    let sorted_lines = sort_lines(lines);
    let ghost sv = sorted_lines.deep_view();
    let mut buffer = FileMatchBuffer::new();
    let mut bundles: Vec<BedBundle> = Vec::new();
    let mut i: usize = 0;
    proof {
        assert(sv.skip(0) =~= sv);
        assert(bundles.deep_view() =~= Seq::<BundleModel>::empty());
    }
    while i < sorted_lines.len()
        invariant
            0 <= i <= sorted_lines.len(),
            sv == sorted_lines.deep_view(),
            sv.len() == sorted_lines.len(),
            lines_sorted(sv),
            sv.to_multiset() == lines.deep_view().to_multiset(),
            bed_scan(sv, init_buf(), Seq::empty()) == bed_scan(
                sv.skip(i as int),
                buffer@,
                bundles.deep_view(),
            ),
            forall|k: int|
                0 <= k < bundles.len() ==> (#[trigger] bundles.deep_view()[k]).chromosome.wf(),
        decreases sorted_lines.len() - i,
    {
        proof {
            reveal_strlit(".bed");
            reveal_strlit(".bim");
            reveal_strlit(".fam");
            assert(".bed"@ =~= seq!['.', 'b', 'e', 'd']);
            assert(".bim"@ =~= seq!['.', 'b', 'i', 'm']);
            assert(".fam"@ =~= seq!['.', 'f', 'a', 'm']);
            assert(sv.skip(i as int).first() == sv[i as int]);
            assert(sv.skip(i as int).drop_first() =~= sv.skip(i + 1));
            assert(sv[i as int] == sorted_lines.deep_view()[i as int]);
        }
        let ghost pre_bundles = bundles.deep_view();
        let ghost m_old = buffer@;
        let line: &str = sorted_lines[i].as_str();
        let push_res: Option<Result<Option<BedBundle>, Error>> = if let Some(
            bed_basename,
        ) = crate::text::strip_suffix_str(line, ".bed") {
            proof {
                assert(line_entry(sv[i as int]) == Some(
                    (FileType::Bed, sv[i as int].take(sv[i as int].len() - 4)),
                ));
                assert(bed_basename@ == sv[i as int].take(sv[i as int].len() - 4));
            }
            Some(buffer.push(&FileType::Bed, bed_basename))
        } else if let Some(bim_basename) = crate::text::strip_suffix_str(line, ".bim") {
            proof {
                assert(line_entry(sv[i as int]) == Some(
                    (FileType::Bim, sv[i as int].take(sv[i as int].len() - 4)),
                ));
                assert(bim_basename@ == sv[i as int].take(sv[i as int].len() - 4));
            }
            Some(buffer.push(&FileType::Bim, bim_basename))
        } else if let Some(fam_basename) = crate::text::strip_suffix_str(line, ".fam") {
            proof {
                assert(line_entry(sv[i as int]) == Some(
                    (FileType::Fam, sv[i as int].take(sv[i as int].len() - 4)),
                ));
                assert(fam_basename@ == sv[i as int].take(sv[i as int].len() - 4));
            }
            Some(buffer.push(&FileType::Fam, fam_basename))
        } else {
            proof {
                assert(line_entry(sv[i as int]) is None);
            }
            None
        };
        match push_res {
            None => {},
            Some(Ok(None)) => {},
            Some(Ok(Some(bundle))) => {
                bundles.push(bundle);
                proof {
                    assert(bundles.deep_view() =~= pre_bundles.push(bundle@));
                }
            },
            Some(Err(e)) => {
                proof {
                    assert(bed_scan(sv.skip(i as int), m_old, pre_bundles) is None);
                    assert forall|sl: Seq<Seq<char>>|
                        #[trigger] lines_sorted(sl) && sl.to_multiset()
                            == lines.deep_view().to_multiset() implies sl == sv by {
                        lemma_sorted_lines_unique(sl, sv);
                    }
                }
                return Err(e);
            },
        }
        i = i + 1;
    }
    proof {
        assert(sv.skip(sorted_lines.len() as int) =~= Seq::<Seq<char>>::empty());
    }
    if buffer.is_empty() {
        sort_bundles(&mut bundles);
        proof {
            assert forall|sl: Seq<Seq<char>>|
                #[trigger] lines_sorted(sl) && sl.to_multiset()
                    == lines.deep_view().to_multiset() implies sl == sv by {
                lemma_sorted_lines_unique(sl, sv);
            }
            assert forall|k: int|
                0 <= k < bundles.len() implies (
            #[trigger] bundles.deep_view()[k]).chromosome.wf() by {
                broadcast use vstd::seq_lib::group_to_multiset_ensures;

                let bm = bundles.deep_view()[k];
                assert(bundles.deep_view().contains(bm));
                assert(bundles.deep_view().to_multiset().count(bm) > 0);
            }
        }
        Ok(bundles)
    } else {
        proof {
            assert forall|sl: Seq<Seq<char>>|
                #[trigger] lines_sorted(sl) && sl.to_multiset()
                    == lines.deep_view().to_multiset() implies sl == sv by {
                lemma_sorted_lines_unique(sl, sv);
            }
        }
        Err(buffer.unmatched_error())
    }
}

/// Two lexicographically sorted line sequences with the same lines are the
/// same sequence.
proof fn lemma_sorted_lines_unique(a: Seq<Seq<char>>, b: Seq<Seq<char>>)
    requires
        lines_sorted(a),
        lines_sorted(b),
        a.to_multiset() == b.to_multiset(),
    ensures
        a == b,
{
    let leq = |x: Seq<char>, y: Seq<char>| lex_le(x, y);
    assert forall|x: Seq<char>| #[trigger] leq(x, x) by {
        crate::text::lemma_lex_le_refl(x);
    }
    assert forall|x: Seq<char>, y: Seq<char>| #[trigger] leq(x, y) && #[trigger] leq(y, x)
        implies x == y by {
        crate::text::lemma_lex_le_antisym(x, y);
    }
    assert(vstd::relations::sorted_by(a, leq));
    assert(vstd::relations::sorted_by(b, leq));
    lemma_sorted_multiset_unique(a, b, leq);
}


/// All bundles of one chromosome, in ascending bundle order.
pub struct BedBundlesOfChr {
    pub chromosome: Chromosome,
    pub bed_bundles: Vec<BedBundle>,
}

/// The mathematical value of a [`BedBundlesOfChr`].
#[verifier::ext_equal]
pub struct ChrBundlesModel {
    pub chromosome: Chromosome,
    pub bundles: Seq<BundleModel>,
}

impl View for BedBundlesOfChr {
    type V = ChrBundlesModel;

    open spec fn view(&self) -> ChrBundlesModel {
        ChrBundlesModel { chromosome: self.chromosome, bundles: self.bed_bundles.deep_view() }
    }
}

impl DeepView for BedBundlesOfChr {
    type V = ChrBundlesModel;

    open spec fn deep_view(&self) -> ChrBundlesModel {
        self.view()
    }
}

/// The grouping of a bundle sequence by chromosome: a left-to-right fold
/// that opens a new group on each chromosome change.
pub open spec fn group_bundles_spec(bs: Seq<BundleModel>) -> Seq<ChrBundlesModel>
    decreases bs.len(),
{
    if bs.len() == 0 {
        Seq::empty()
    } else {
        let rest = group_bundles_spec(bs.drop_last());
        let b = bs.last();
        if rest.len() == 0 || rest.last().chromosome != b.chromosome {
            rest.push(ChrBundlesModel { chromosome: b.chromosome, bundles: seq![b] })
        } else {
            let g = rest.last();
            rest.update(
                rest.len() - 1,
                ChrBundlesModel { chromosome: g.chromosome, bundles: g.bundles.push(b) },
            )
        }
    }
}

/// Groups sorted bundles by chromosome.
pub fn group_bed_bundles(bundles: &Vec<BedBundle>) -> (r: Vec<BedBundlesOfChr>)
    ensures
        r.deep_view() == group_bundles_spec(bundles.deep_view()),
{
    let mut done: Vec<BedBundlesOfChr> = Vec::new();
    if bundles.len() == 0 {
        proof {
            assert(done.deep_view() =~= group_bundles_spec(bundles.deep_view()));
        }
        return done;
    }
    let first = &bundles[0];
    let mut chromosome = first.chromosome;
    let mut cur: Vec<BedBundle> = Vec::new();
    cur.push(
        BedBundle {
            prefix: first.prefix.clone(),
            chromosome: first.chromosome,
            i_block: first.i_block,
        },
    );
    let mut i: usize = 1;
    proof {
        let bv = bundles.deep_view();
        assert(bv.take(1).drop_last() =~= Seq::<BundleModel>::empty());
        assert(group_bundles_spec(Seq::<BundleModel>::empty()) == Seq::<ChrBundlesModel>::empty());
        assert(bv.take(1).last() == bv[0]);
        assert(cur.deep_view() =~= seq![bv[0]]);
        assert(done.deep_view() =~= Seq::<ChrBundlesModel>::empty());
        assert(group_bundles_spec(bv.take(1)) =~~= done.deep_view().push(
            ChrBundlesModel { chromosome, bundles: cur.deep_view() },
        ));
    }
    while i < bundles.len()
        invariant
            1 <= i <= bundles.len(),
            bundles.deep_view().len() == bundles.len(),
            group_bundles_spec(bundles.deep_view().take(i as int)) == done.deep_view().push(
                ChrBundlesModel { chromosome, bundles: cur.deep_view() },
            ),
        decreases bundles.len() - i,
    {
        let ghost bv = bundles.deep_view();
        let ghost state = group_bundles_spec(bv.take(i as int));
        let ghost gmodel = ChrBundlesModel { chromosome, bundles: cur.deep_view() };
        proof {
            assert(bv.take(i + 1).drop_last() =~= bv.take(i as int));
            assert(bv.take(i + 1).last() == bv[i as int]);
            assert(state.last() == gmodel);
            assert(state.len() == done.deep_view().len() + 1);
        }
        let b = &bundles[i];
        let copy = BedBundle { prefix: b.prefix.clone(), chromosome: b.chromosome, i_block: b.i_block };
        if b.chromosome == chromosome {
            cur.push(copy);
            proof {
                let gnew = ChrBundlesModel {
                    chromosome: gmodel.chromosome,
                    bundles: gmodel.bundles.push(bv[i as int]),
                };
                assert(group_bundles_spec(bv.take(i + 1)) =~~= state.update(
                    state.len() - 1,
                    gnew,
                ));
                assert(state.update(state.len() - 1, gnew) =~~= done.deep_view().push(gnew)) by {
                    assert(state == done.deep_view().push(gmodel));
                }
                assert(cur.deep_view() =~= gmodel.bundles.push(bv[i as int]));
                assert(group_bundles_spec(bv.take(i + 1)) =~~= done.deep_view().push(
                    ChrBundlesModel { chromosome, bundles: cur.deep_view() },
                ));
            }
        } else {
            let ghost old_done = done.deep_view();
            let chromosome_new = b.chromosome;
            let closed = BedBundlesOfChr { chromosome, bed_bundles: cur };
            done.push(closed);
            cur = Vec::new();
            cur.push(copy);
            chromosome = chromosome_new;
            proof {
                assert(done.deep_view() =~~= old_done.push(gmodel));
                assert(group_bundles_spec(bv.take(i + 1)) =~~= state.push(
                    ChrBundlesModel { chromosome: bv[i as int].chromosome, bundles: seq![bv[i as int]] },
                ));
                assert(cur.deep_view() =~= seq![bv[i as int]]);
                assert(group_bundles_spec(bv.take(i + 1)) =~~= done.deep_view().push(
                    ChrBundlesModel { chromosome, bundles: cur.deep_view() },
                ));
            }
        }
        i = i + 1;
    }
    let closed = BedBundlesOfChr { chromosome, bed_bundles: cur };
    done.push(closed);
    proof {
        assert(bundles.deep_view().take(bundles.len() as int) =~= bundles.deep_view());
        assert(done.deep_view() =~~= group_bundles_spec(bundles.deep_view()));
    }
    done
}


/// When every bundle's chromosome is well formed, so is every group's, and
/// every bundle inside keeps its own.
pub proof fn lemma_group_bundles_spec_wf(bs: Seq<BundleModel>)
    requires
        forall|k: int| 0 <= k < bs.len() ==> (#[trigger] bs[k]).chromosome.wf(),
    ensures
        forall|gi: int|
            0 <= gi < group_bundles_spec(bs).len() ==> (#[trigger] group_bundles_spec(
                bs,
            )[gi]).chromosome.wf(),
        forall|gi: int, bi: int|
            0 <= gi < group_bundles_spec(bs).len() && 0 <= bi < group_bundles_spec(
                bs,
            )[gi].bundles.len() ==> (#[trigger] group_bundles_spec(
                bs,
            )[gi].bundles[bi]).chromosome.wf(),
    decreases bs.len(),
{
    if bs.len() > 0 {
        assert(forall|k: int|
            0 <= k < bs.drop_last().len() ==> #[trigger] bs.drop_last()[k] == bs[k]);
        lemma_group_bundles_spec_wf(bs.drop_last());
        let rest = group_bundles_spec(bs.drop_last());
        let whole = group_bundles_spec(bs);
        let b = bs.last();
        assert(b.chromosome.wf());
        if rest.len() == 0 || rest.last().chromosome != b.chromosome {
            assert(forall|gi: int| 0 <= gi < rest.len() ==> #[trigger] whole[gi] == rest[gi]);
            assert(whole.last().chromosome == b.chromosome);
            assert(whole.last().bundles =~= seq![b]);
        } else {
            assert(forall|gi: int|
                0 <= gi < rest.len() - 1 ==> #[trigger] whole[gi] == rest[gi]);
            assert(whole.last().chromosome == rest.last().chromosome);
            assert(whole.last().bundles == rest.last().bundles.push(b));
            assert(forall|bi: int|
                0 <= bi < rest.last().bundles.len() ==> #[trigger] whole.last().bundles[bi]
                    == rest.last().bundles[bi]);
            assert(whole.last().bundles.last() == b);
        }
    }
}

/// Collects the bed bundles of a listing and groups them by chromosome.
pub fn get_bed_bundles_by_chrom(lines: &Vec<String>) -> (r: Result<Vec<BedBundlesOfChr>, Error>)
    ensures
        r matches Ok(v) ==> (forall|gi: int|
            0 <= gi < v.len() ==> (#[trigger] v.deep_view()[gi]).chromosome.wf()) && (forall|
            gi: int,
            bi: int,
        |
            0 <= gi < v.len() && 0 <= bi < v.deep_view()[gi].bundles.len() ==> (
            #[trigger] v.deep_view()[gi].bundles[bi]).chromosome.wf()),
        forall|sl: Seq<Seq<char>>|
            #[trigger] lines_sorted(sl) && sl.to_multiset() == lines.deep_view().to_multiset()
                ==> match bed_scan(sl, init_buf(), Seq::empty()) {
                None => r is Err,
                Some((m, bs)) => if buf_empty(m) {
                    match r {
                        Ok(v) => forall|sb: Seq<BundleModel>|
                            #[trigger] bundles_sorted(sb) && sb.to_multiset() == bs.to_multiset()
                                ==> v.deep_view() == group_bundles_spec(sb),
                        Err(_) => false,
                    }
                } else {
                    r is Err
                },
            },
{
    let bundles = match get_bed_bundles(lines) {
        Ok(v) => v,
        Err(e) => {
            return Err(e);
        },
    };
    let grouped = group_bed_bundles(&bundles);
    proof {
        lemma_group_bundles_spec_wf(bundles.deep_view());
        assert forall|sb: Seq<BundleModel>|
            #[trigger] bundles_sorted(sb) && sb.to_multiset()
                == bundles.deep_view().to_multiset() implies sb == bundles.deep_view() by {
            let leq = |x: BundleModel, y: BundleModel| bundle_le(x, y);
            assert forall|x: BundleModel| #[trigger] leq(x, x) by {
                lemma_bundle_le_order(x, x, x);
            }
            assert forall|x: BundleModel, y: BundleModel|
                #[trigger] leq(x, y) && #[trigger] leq(y, x) implies x == y by {
                lemma_bundle_le_order(x, y, x);
            }
            assert(vstd::relations::sorted_by(sb, leq));
            assert(vstd::relations::sorted_by(bundles.deep_view(), leq));
            lemma_sorted_multiset_unique(sb, bundles.deep_view(), leq);
        }
    }
    Ok(grouped)
}


/// The survey line of one chromosome's bundles.
pub open spec fn bed_survey_line(g: ChrBundlesModel) -> Seq<char> {
    seq!['F', 'o', 'r', ' ', 'c', 'h', 'r', 'o', 'm', 'o', 's', 'o', 'm', 'e', ' ']
        + chrom_str(g.chromosome) + seq![',', ' ', 'w', 'e', ' ', 'h', 'a', 'v', 'e', ' ']
        + dec_str(g.bundles.len()) + seq![
        ' ', 'B', 'E', 'D', ' ', 'b', 'u', 'n', 'd', 'l', 'e', 's', '.',
    ]
}

/// The survey lines of the chromosome groups, in order.
pub open spec fn bed_survey_lines(gs: Seq<ChrBundlesModel>) -> Seq<Seq<char>>
    decreases gs.len(),
{
    if gs.len() == 0 {
        Seq::empty()
    } else {
        bed_survey_lines(gs.drop_last()).push(bed_survey_line(gs.last()))
    }
}

/// Builds the survey report of grouped bed bundles: how many bundles each
/// chromosome has.
pub fn survey_beds(bundles_by_chr: &Vec<BedBundlesOfChr>) -> (r: Vec<String>)
    requires
        forall|gi: int|
            0 <= gi < bundles_by_chr.len() ==> (
            #[trigger] bundles_by_chr.deep_view()[gi]).chromosome.wf(),
    ensures
        r.deep_view() == bed_survey_lines(bundles_by_chr.deep_view()),
{
    let ghost gv = bundles_by_chr.deep_view();
    let mut lines: Vec<String> = Vec::new();
    let mut gi: usize = 0;
    proof {
        assert(gv.take(0) =~= Seq::<ChrBundlesModel>::empty());
        assert(lines.deep_view() =~= bed_survey_lines(gv.take(0)));
    }
    while gi < bundles_by_chr.len()
        invariant
            0 <= gi <= bundles_by_chr.len(),
            gv == bundles_by_chr.deep_view(),
            gv.len() == bundles_by_chr.len(),
            forall|k: int| 0 <= k < gv.len() ==> (#[trigger] gv[k]).chromosome.wf(),
            lines.deep_view() == bed_survey_lines(gv.take(gi as int)),
        decreases bundles_by_chr.len() - gi,
    {
        proof {
            reveal_strlit("For chromosome ");
            reveal_strlit(", we have ");
            reveal_strlit(" BED bundles.");
            assert(gv.take(gi + 1).drop_last() =~= gv.take(gi as int));
            assert(gv.take(gi + 1).last() == gv[gi as int]);
        }
        let g = &bundles_by_chr[gi];
        proof {
            assert(gv[gi as int] == g.deep_view());
        }
        let line = String::from_str("For chromosome ").concat(g.chromosome.text().as_str()).concat(
            ", we have ",
        ).concat(usize_to_string(g.bed_bundles.len()).as_str()).concat(" BED bundles.");
        let ghost pre = lines.deep_view();
        proof {
            assert(line@ =~= bed_survey_line(gv[gi as int]));
        }
        lines.push(line);
        proof {
            assert(lines.deep_view() =~= pre.push(bed_survey_line(gv[gi as int])));
        }
        gi = gi + 1;
    }
    proof {
        assert(gv.take(bundles_by_chr.len() as int) =~= gv);
    }
    lines
}


/// The bundles of a group sequence, concatenated in order.
pub open spec fn groups_bundles(gs: Seq<ChrBundlesModel>) -> Seq<BundleModel>
    decreases gs.len(),
{
    if gs.len() == 0 {
        Seq::empty()
    } else {
        groups_bundles(gs.drop_last()) + gs.last().bundles
    }
}

/// Flattening the chromosome grouping of a bundle sequence gives the
/// sequence back.
pub proof fn lemma_group_bundles_flatten(bs: Seq<BundleModel>)
    ensures
        groups_bundles(group_bundles_spec(bs)) == bs,
    decreases bs.len(),
{
    if bs.len() == 0 {
        assert(groups_bundles(group_bundles_spec(bs)) =~= bs);
    } else {
        lemma_group_bundles_flatten(bs.drop_last());
        let rest = group_bundles_spec(bs.drop_last());
        let b = bs.last();
        let whole = group_bundles_spec(bs);
        if rest.len() == 0 || rest.last().chromosome != b.chromosome {
            let gnew = ChrBundlesModel { chromosome: b.chromosome, bundles: seq![b] };
            assert(whole == rest.push(gnew));
            assert(whole.drop_last() =~= rest);
            assert(whole.last() == gnew);
            assert(groups_bundles(whole) =~= bs);
        } else {
            let g = rest.last();
            let gnew = ChrBundlesModel { chromosome: g.chromosome, bundles: g.bundles.push(b) };
            assert(whole == rest.update(rest.len() - 1, gnew));
            assert(whole.drop_last() =~= rest.drop_last());
            assert(whole.last() == gnew);
            assert(groups_bundles(rest) == groups_bundles(rest.drop_last()) + g.bundles);
            assert(groups_bundles(whole) == groups_bundles(rest.drop_last()) + g.bundles.push(b));
            assert(groups_bundles(whole) =~= (groups_bundles(rest.drop_last()) + g.bundles).push(
                b,
            ));
            assert(groups_bundles(whole) =~= bs);
        }
    }
}

/// Grouping bundles by chromosome is idempotent: grouping the flattened
/// groups yields the same groups again.
pub proof fn lemma_group_bundles_idempotent(bs: Seq<BundleModel>)
    ensures
        group_bundles_spec(groups_bundles(group_bundles_spec(bs))) == group_bundles_spec(bs),
{
    lemma_group_bundles_flatten(bs);
}

/// Grouping sorted bundles of one shared prefix, as the bundles of one
/// data set have, yields groups in strictly ascending chromosome order,
/// each nonempty and holding exactly the bundles of its chromosome, in
/// their sorted order.
pub proof fn lemma_group_bundles_spec_sorted(bs: Seq<BundleModel>)
    requires
        bundles_sorted(bs),
        forall|i: int, j: int|
            0 <= i < j < bs.len() ==> (#[trigger] bs[i]).prefix == (#[trigger] bs[j]).prefix,
    ensures
        forall|gi: int, gj: int|
            0 <= gi < gj < group_bundles_spec(bs).len()
                ==> crate::data::vcfs::chrom_lt(
                (#[trigger] group_bundles_spec(bs)[gi]).chromosome,
                (#[trigger] group_bundles_spec(bs)[gj]).chromosome,
            ),
        forall|gi: int|
            0 <= gi < group_bundles_spec(bs).len() ==> (#[trigger] group_bundles_spec(
                bs,
            )[gi]).bundles.len() > 0,
        forall|gi: int, bi: int|
            0 <= gi < group_bundles_spec(bs).len() && 0 <= bi < group_bundles_spec(
                bs,
            )[gi].bundles.len() ==> (#[trigger] group_bundles_spec(bs)[gi].bundles[bi]).chromosome
                == group_bundles_spec(bs)[gi].chromosome,
        bs.len() > 0 ==> group_bundles_spec(bs).len() > 0 && group_bundles_spec(
            bs,
        ).last().chromosome == bs.last().chromosome,
    decreases bs.len(),
{
    if bs.len() > 0 {
        let prev = bs.drop_last();
        assert(bundles_sorted(prev)) by {
            assert(forall|i: int| 0 <= i < prev.len() ==> prev[i] == bs[i]);
        }
        assert(forall|i: int, j: int|
            0 <= i < j < prev.len() ==> (#[trigger] prev[i]).prefix == (
            #[trigger] prev[j]).prefix) by {
            assert(forall|i: int| 0 <= i < prev.len() ==> prev[i] == bs[i]);
        }
        lemma_group_bundles_spec_sorted(prev);
        let rest = group_bundles_spec(prev);
        let b = bs.last();
        let whole = group_bundles_spec(bs);
        if rest.len() == 0 || rest.last().chromosome != b.chromosome {
            let gnew = ChrBundlesModel { chromosome: b.chromosome, bundles: seq![b] };
            assert(whole == rest.push(gnew));
            if rest.len() > 0 {
                let pb = prev.last();
                assert(bundle_le(pb, b)) by {
                    assert(bs[prev.len() - 1] == pb && bs[bs.len() - 1] == b);
                }
                assert(pb.prefix == b.prefix) by {
                    assert(bs[prev.len() - 1] == pb && bs[bs.len() - 1] == b);
                }
                assert(chrom_le(pb.chromosome, b.chromosome)) by {
                    crate::data::chromosome::lemma_chrom_le_order(
                        pb.chromosome,
                        pb.chromosome,
                        b.chromosome,
                    );
                }
                assert(crate::data::vcfs::chrom_lt(rest.last().chromosome, gnew.chromosome));
                assert forall|gi: int, gj: int|
                    0 <= gi < gj < whole.len() implies crate::data::vcfs::chrom_lt(
                    whole[gi].chromosome,
                    whole[gj].chromosome,
                ) by {
                    if gj == whole.len() - 1 && gi < rest.len() - 1 {
                        assert(crate::data::vcfs::chrom_lt(
                            rest[gi].chromosome,
                            rest.last().chromosome,
                        ));
                        crate::data::chromosome::lemma_chrom_le_order(
                            rest[gi].chromosome,
                            rest.last().chromosome,
                            gnew.chromosome,
                        );
                    }
                }
            }
        } else {
            let g = rest.last();
            let gnew = ChrBundlesModel { chromosome: g.chromosome, bundles: g.bundles.push(b) };
            assert(whole == rest.update(rest.len() - 1, gnew));
            assert(forall|gi: int| 0 <= gi < whole.len() - 1 ==> whole[gi] == #[trigger] rest[gi]);
            assert(forall|bi: int|
                0 <= bi < g.bundles.len() ==> gnew.bundles[bi] == #[trigger] g.bundles[bi]);
            assert(gnew.bundles.last() == b);
        }
    }
}

/// Parsing the canonical basename of a bundle gives the bundle back,
/// provided its prefix contains no separator.
#[verifier::rlimit(30)]
pub proof fn lemma_bundle_round_trip(b: BundleModel)
    requires
        b.chromosome.wf(),
        b.i_block <= usize::MAX,
        forall|i: int| 0 <= i < b.prefix.len() ==> b.prefix[i] != '_',
    ensures
        parse_bundle_spec(bundle_basename_str(b)) == Some(b),
{
    let ctoken = seq!['c'] + chrom_str(b.chromosome);
    let third = seq!['b'] + dec_str(b.i_block);
    crate::text::lemma_dec_str_val(b.i_block);
    assert(forall|i: int| 0 <= i < chrom_str(b.chromosome).len() ==> chrom_str(b.chromosome)[i]
        != '_') by {
        match b.chromosome {
            Chromosome::Auto(n) => {
                crate::text::lemma_dec_str_val(n as nat);
            },
            Chromosome::Allo(sym) => {},
        }
    }
    assert(forall|i: int| 0 <= i < ctoken.len() ==> ctoken[i] != '_');
    assert(forall|i: int| 0 <= i < third.len() ==> third[i] != '_') by {
        assert(forall|i: int|
            1 <= i < third.len() ==> third[i] == #[trigger] dec_str(b.i_block)[i - 1]);
    }
    let base = bundle_basename_str(b);
    assert(base =~= b.prefix + seq!['_'] + (ctoken + seq!['_'] + third));
    crate::text::lemma_split_join(b.prefix, ctoken + seq!['_'] + third);
    crate::text::lemma_split_join(ctoken, third);
    crate::text::lemma_split_solo(third);
    let parts = split_parts(base);
    assert(parts =~~= seq![b.prefix, ctoken, third]) by {
        assert(split_parts(ctoken + seq!['_'] + third) == seq![ctoken] + split_parts(third));
    }
    crate::data::chromosome::lemma_chrom_c_token_round_trip(b.chromosome);
    assert(parts[2] == third);
    assert(third[0] == 'b');
    assert(third.skip(1) =~= dec_str(b.i_block));
    assert(third.len() > 1);
    assert(parse_bundle_spec(base) == Some(b)) by {
        assert(dec_val(third.skip(1)) == b.i_block);
    }
}

} // verus!
