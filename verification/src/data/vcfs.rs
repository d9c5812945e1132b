//! VCF listing lines: parsing names of the shape
//! `<prefix>_<chromosome>_b<index>.vcf.gz` into keys, sorting the keyed
//! files, and partitioning them into per-chromosome, size-bounded blocks.

use vstd::prelude::*;
use crate::data::chromosome::{chrom_le, parse_chrom_spec, Chromosome};
use crate::error::{Error, ErrorKind};
use crate::text::{all_digits, dec_val, has_suffix, parse_usize, split_parts, strip_suffix_str};

verus! {

/// Every block holds the files of one window of this many consecutive
/// sequence indices. This is fixed policy, not configuration.
pub const BLOCK_SIZE: usize = 100;

/// The sort key of a VCF file: its chromosome and its sequence index.
#[derive(Clone, Copy, Debug, PartialEq, Eq, Structural)]
pub struct VcfFileKey {
    pub chromosome: Chromosome,
    pub i_file: usize,
}

/// A VCF file from the remote listing: its key and its full name.
#[derive(Debug)]
pub struct VcfFile {
    pub key: VcfFileKey,
    pub name: String,
}

/// The mathematical value of a [`VcfFile`].
pub struct VcfFileModel {
    pub key: VcfFileKey,
    pub name: Seq<char>,
}

impl View for VcfFile {
    type V = VcfFileModel;

    open spec fn view(&self) -> VcfFileModel {
        VcfFileModel { key: self.key, name: self.name@ }
    }
}

impl DeepView for VcfFile {
    type V = VcfFileModel;

    open spec fn deep_view(&self) -> VcfFileModel {
        self.view()
    }
}

impl VcfFileKey {
    /// The index of the block this key's file falls into.
    pub open spec fn i_block_spec(&self) -> nat {
        self.i_file as nat / (BLOCK_SIZE as nat)
    }

    /// The index of the block this key's file falls into.
    pub fn i_block(&self) -> (r: usize)
        ensures
            r == self.i_block_spec(),
    {
        self.i_file / BLOCK_SIZE
    }

    /// The key's chromosome is well formed.
    pub open spec fn wf(&self) -> bool {
        self.chromosome.wf()
    }
}

/// Total order on keys: by chromosome, then by sequence index.
pub open spec fn key_le(a: VcfFileKey, b: VcfFileKey) -> bool {
    if a.chromosome == b.chromosome {
        a.i_file <= b.i_file
    } else {
        chrom_le(a.chromosome, b.chromosome)
    }
}

/// The key order is total, antisymmetric and transitive.
pub proof fn lemma_key_le_order(a: VcfFileKey, b: VcfFileKey, c: VcfFileKey)
    ensures
        key_le(a, b) || key_le(b, a),
        key_le(a, b) && key_le(b, a) ==> a == b,
        key_le(a, b) && key_le(b, c) ==> key_le(a, c),
{
    crate::data::chromosome::lemma_chrom_le_order(a.chromosome, b.chromosome, c.chromosome);
    crate::data::chromosome::lemma_chrom_le_order(b.chromosome, a.chromosome, c.chromosome);
}

/// Compares two keys in the total order.
pub fn key_le_exec(a: &VcfFileKey, b: &VcfFileKey) -> (r: bool)
    ensures
        r == key_le(*a, *b),
{
    let ca = a.chromosome;
    let cb = b.chromosome;
    if ca == cb {
        a.i_file <= b.i_file
    } else {
        crate::data::chromosome::chrom_le_exec(&ca, &cb)
    }
}

/// What the underscore-separated body of a VCF file name denotes, if
/// anything: the second piece is the chromosome, the third is `b` followed
/// by the sequence index; later pieces are ignored.
pub open spec fn parse_vcf_key_spec(base: Seq<char>) -> Option<VcfFileKey> {
    let parts = split_parts(base);
    if parts.len() < 3 {
        None
    } else {
        match parse_chrom_spec(parts[1]) {
            None => None,
            Some(chromosome) => {
                let p = parts[2];
                if p.len() > 1 && p[0] == 'b' && all_digits(p.skip(1)) && dec_val(p.skip(1))
                    <= usize::MAX {
                    Some(VcfFileKey { chromosome, i_file: dec_val(p.skip(1)) as usize })
                } else {
                    None
                }
            },
        }
    }
}

impl VcfFile {
    /// Parses the body of a VCF file name; `name` is the full listing line
    /// the file keeps.
    pub fn parse_basename(name: &str, base_name: &str) -> (r: Result<VcfFile, Error>)
        ensures
            match r {
                Ok(f) => parse_vcf_key_spec(base_name@) == Some(f.key) && f.key.wf() && f.name@
                    == name@,
                Err(e) => parse_vcf_key_spec(base_name@) is None && (e.kind_spec()
                    == ErrorKind::Udix || e.kind_spec() == ErrorKind::ParseInt),
            },
    {
        let parts = crate::text::split_underscores(base_name);
        if parts.len() < 3 {
            return Err(cannot_parse_vcf(name));
        }
        let chromosome = match Chromosome::parse(parts[1].as_str()) {
            Ok(c) => c,
            Err(e) => {
                return Err(e);
            },
        };
        proof {
            reveal_strlit("b");
        }
        let third: &str = parts[2].as_str();
        let idx_digits = match crate::text::strip_prefix_str(third, "b") {
            Some(rest) => rest,
            None => {
                proof {
                    assert(third@.len() >= 1 && third@[0] == 'b' ==> third@.take(1) =~= "b"@);
                }
                return Err(cannot_parse_vcf(name));
            },
        };
        proof {
            assert(third@.take(1)[0] == third@[0]);
            assert(idx_digits@ == third@.skip(1));
        }
        let i_file = match parse_usize(idx_digits) {
            Some(n) => n,
            None => {
                return Err(cannot_parse_vcf(name));
            },
        };
        proof {
            assert(third@.len() > 1) by {
                assert(idx_digits@.len() > 0);
            }
        }
        let key = VcfFileKey { chromosome, i_file };
        Ok(VcfFile { key, name: String::from_str(name) })
    }

    /// Parses a listing line if it carries the VCF suffix; lines with other
    /// suffixes are skipped, not errors.
    pub fn parse_if_vcf(name: &str) -> (r: Result<Option<VcfFile>, Error>)
        ensures
            match r {
                Ok(opt) => match opt {
                    Some(f) => is_vcf_line(name@) && parse_vcf_key_spec(vcf_base(name@)) == Some(
                        f.key,
                    ) && f.key.wf() && f.name@ == name@,
                    None => !is_vcf_line(name@),
                },
                Err(e) => is_vcf_line(name@) && parse_vcf_key_spec(vcf_base(name@)) is None,
            },
    {
        proof {
            reveal_strlit(".vcf.gz");
        }
        match strip_suffix_str(name, ".vcf.gz") {
            Some(base_name) => {
                proof {
                    assert(".vcf.gz"@ =~= vcf_suffix());
                }
                match VcfFile::parse_basename(name, base_name) {
                    Ok(f) => Ok(Some(f)),
                    Err(e) => Err(e),
                }
            },
            None => {
                proof {
                    assert(".vcf.gz"@ =~= vcf_suffix());
                }
                Ok(None)
            },
        }
    }
}

/// The suffix that marks a listing line as a VCF file.
pub open spec fn vcf_suffix() -> Seq<char> {
    seq!['.', 'v', 'c', 'f', '.', 'g', 'z']
}

/// Whether a listing line names a VCF file.
pub open spec fn is_vcf_line(name: Seq<char>) -> bool {
    has_suffix(name, vcf_suffix())
}

/// The body of a VCF listing line, without the suffix.
pub open spec fn vcf_base(name: Seq<char>) -> Seq<char> {
    name.take(name.len() - vcf_suffix().len())
}

/// What collecting the VCF files of a listing yields: the files of all
/// VCF-suffixed lines in listing order, or nothing if any such line fails
/// to parse.
pub open spec fn scan_vcfs(lines: Seq<Seq<char>>) -> Option<Seq<VcfFileModel>>
    decreases lines.len(),
{
    if lines.len() == 0 {
        Some(Seq::empty())
    } else {
        match scan_vcfs(lines.drop_last()) {
            None => None,
            Some(rest) => {
                let line = lines.last();
                if !is_vcf_line(line) {
                    Some(rest)
                } else {
                    match parse_vcf_key_spec(vcf_base(line)) {
                        None => None,
                        Some(key) => Some(rest.push(VcfFileModel { key, name: line })),
                    }
                }
            },
        }
    }
}

/// Once a front segment of the listing fails the scan, the whole listing
/// fails it.
proof fn lemma_scan_vcfs_none_extends(lines: Seq<Seq<char>>, i: int)
    requires
        0 <= i <= lines.len(),
        scan_vcfs(lines.take(i)) is None,
    ensures
        scan_vcfs(lines) is None,
    decreases lines.len() - i,
{
    if i < lines.len() {
        assert(lines.take(i + 1).drop_last() =~= lines.take(i));
        lemma_scan_vcfs_none_extends(lines, i + 1);
    } else {
        assert(lines.take(i) =~= lines);
    }
}

/// Every key the scan yields is well formed.
pub proof fn lemma_scan_vcfs_wf(lines: Seq<Seq<char>>)
    requires
        scan_vcfs(lines) is Some,
    ensures
        forall|i: int|
            0 <= i < scan_vcfs(lines)->0.len() ==> (#[trigger] scan_vcfs(lines)->0[i]).key.wf(),
    decreases lines.len(),
{
    if lines.len() > 0 {
        lemma_scan_vcfs_wf(lines.drop_last());
    }
}

/// Collects the VCF files named by a remote listing, in listing order. The
/// first VCF-suffixed line that fails the grammar aborts the pass.
pub fn get_vcf_files(lines: &Vec<String>) -> (r: Result<Vec<VcfFile>, Error>)
    ensures
        match r {
            Ok(files) => scan_vcfs(lines.deep_view()) == Some(files.deep_view()),
            Err(_) => scan_vcfs(lines.deep_view()) is None,
        },
{
    let mut files: Vec<VcfFile> = Vec::new();
    let mut i: usize = 0;
    proof {
        assert(lines.deep_view().take(0) =~= Seq::<Seq<char>>::empty());
        assert(files.deep_view() =~= Seq::<VcfFileModel>::empty());
    }
    while i < lines.len()
        invariant
            0 <= i <= lines.len(),
            lines.deep_view().len() == lines.len(),
            scan_vcfs(lines.deep_view().take(i as int)) == Some(files.deep_view()),
        decreases lines.len() - i,
    {
        let ghost pre = files.deep_view();
        proof {
            assert(lines.deep_view().take(i + 1).drop_last() =~= lines.deep_view().take(i as int));
            assert(lines.deep_view().take(i + 1).last() == lines.deep_view()[i as int]);
            assert(lines.deep_view()[i as int] == lines[i as int]@);
        }
        match VcfFile::parse_if_vcf(lines[i].as_str()) {
            Ok(Some(f)) => {
                files.push(f);
                proof {
                    assert(files.deep_view() =~= pre.push(f@));
                }
            },
            Ok(None) => {},
            Err(e) => {
                proof {
                    lemma_scan_vcfs_none_extends(lines.deep_view(), i + 1);
                }
                return Err(e);
            },
        }
        i = i + 1;
    }
    proof {
        assert(lines.deep_view().take(lines.len() as int) =~= lines.deep_view());
    }
    Ok(files)
}

/// The files stand in ascending key order.
pub open spec fn files_sorted(s: Seq<VcfFileModel>) -> bool {
    forall|i: int, j: int|
        0 <= i < j < s.len() ==> key_le((#[trigger] s[i]).key, (#[trigger] s[j]).key)
}


/// The files carrying one key, in order: the per-key subsequence.
pub open spec fn files_with_key(s: Seq<VcfFileModel>, k: VcfFileKey) -> Seq<VcfFileModel>
    decreases s.len(),
{
    if s.len() == 0 {
        Seq::empty()
    } else if s.last().key == k {
        files_with_key(s.drop_last(), k).push(s.last())
    } else {
        files_with_key(s.drop_last(), k)
    }
}

/// The per-key subsequence distributes over concatenation.
proof fn lemma_files_with_key_concat(a: Seq<VcfFileModel>, b: Seq<VcfFileModel>, k: VcfFileKey)
    ensures
        files_with_key(a + b, k) == files_with_key(a, k) + files_with_key(b, k),
    decreases b.len(),
{
    if b.len() == 0 {
        assert(a + b =~= a);
        assert(files_with_key(a, k) + files_with_key(b, k) =~= files_with_key(a, k));
    } else {
        lemma_files_with_key_concat(a, b.drop_last(), k);
        assert((a + b).drop_last() =~= a + b.drop_last());
        assert((a + b).last() == b.last());
        if b.last().key == k {
            assert(files_with_key(a, k) + files_with_key(b, k) =~= (files_with_key(a, k)
                + files_with_key(b.drop_last(), k)).push(b.last()));
        }
    }
}

/// Moving one element left, past elements of other keys only, leaves every
/// per-key subsequence unchanged.
proof fn lemma_files_with_key_reinsert(s: Seq<VcfFileModel>, i: int, j: int, k: VcfFileKey)
    requires
        0 <= j <= i < s.len(),
        forall|m: int| j <= m < i ==> (#[trigger] s[m]).key != s[i].key,
    ensures
        files_with_key(s.remove(i).insert(j, s[i]), k) == files_with_key(s, k),
{
    let x = s[i];
    let front = s.take(j);
    let between = s.subrange(j, i);
    let back = s.skip(i + 1);
    assert(s =~= front + between + seq![x] + back);
    assert(s.remove(i).insert(j, x) =~= front + seq![x] + between + back);
    lemma_files_with_key_concat(front + between + seq![x], back, k);
    lemma_files_with_key_concat(front + between, seq![x], k);
    lemma_files_with_key_concat(front, between, k);
    lemma_files_with_key_concat(front + seq![x] + between, back, k);
    lemma_files_with_key_concat(front + seq![x], between, k);
    lemma_files_with_key_concat(front, seq![x], k);
    assert(files_with_key(s, k) == files_with_key(front, k) + files_with_key(between, k)
        + files_with_key(seq![x], k) + files_with_key(back, k)) by {
        assert(front + between + seq![x] + back =~= (front + between + seq![x]) + back);
        assert(front + between + seq![x] =~= (front + between) + seq![x]);
    }
    assert(files_with_key(s.remove(i).insert(j, x), k) == files_with_key(front, k)
        + files_with_key(seq![x], k) + files_with_key(between, k) + files_with_key(back, k)) by {
        assert(front + seq![x] + between + back =~= (front + seq![x] + between) + back);
        assert(front + seq![x] + between =~= (front + seq![x]) + between);
    }
    if x.key == k {
        assert(files_with_key(between, k) =~= Seq::<VcfFileModel>::empty()) by {
            lemma_files_with_key_all_other(between, k);
        }
        assert(files_with_key(s, k) =~= files_with_key(s.remove(i).insert(j, x), k));
    } else {
        assert(files_with_key(seq![x], k) =~= Seq::<VcfFileModel>::empty()) by {
            assert(seq![x].drop_last() =~= Seq::<VcfFileModel>::empty());
            assert(files_with_key(Seq::<VcfFileModel>::empty(), k) == Seq::<
                VcfFileModel,
            >::empty());
        }
        assert(files_with_key(s, k) =~= files_with_key(s.remove(i).insert(j, x), k));
    }
}

/// A run holding no file of the key contributes nothing to its
/// subsequence.
proof fn lemma_files_with_key_all_other(s: Seq<VcfFileModel>, k: VcfFileKey)
    requires
        forall|m: int| 0 <= m < s.len() ==> (#[trigger] s[m]).key != k,
    ensures
        files_with_key(s, k) == Seq::<VcfFileModel>::empty(),
    decreases s.len(),
{
    if s.len() > 0 {
        assert(forall|m: int|
            0 <= m < s.drop_last().len() ==> #[trigger] s.drop_last()[m] == s[m]);
        lemma_files_with_key_all_other(s.drop_last(), k);
    }
}

/// Sorts files ascending by key.
fn sort_vcf_files(files: &mut Vec<VcfFile>)
    ensures
        files_sorted(final(files).deep_view()),
        final(files).deep_view().to_multiset() == old(files).deep_view().to_multiset(),
        forall|k: VcfFileKey|
            #[trigger] files_with_key(final(files).deep_view(), k) == files_with_key(
                old(files).deep_view(),
                k,
            ),
{
    if files.len() <= 1 {
        return;
    }
    let mut i: usize = 1;
    while i < files.len()
        invariant
            1 <= i <= files.len(),
            files.deep_view().len() == files.len(),
            files_sorted(files.deep_view().take(i as int)),
            files.deep_view().to_multiset() == old(files).deep_view().to_multiset(),
            forall|k: VcfFileKey|
                #[trigger] files_with_key(files.deep_view(), k) == files_with_key(
                    old(files).deep_view(),
                    k,
                ),
        decreases files.len() - i,
    {
        broadcast use vstd::seq_lib::to_multiset_insert, vstd::seq_lib::group_to_multiset_ensures;

        let ghost pre = files.deep_view();
        let x = files.remove(i);
        proof {
            assert(files.deep_view() =~= pre.remove(i as int));
            assert(pre.remove(i as int).to_multiset() =~= pre.to_multiset().remove(pre[i as int]));
        }
        let ghost mid = files.deep_view();
        let mut j: usize = i;
        while j > 0 && !key_le_exec(&files[j - 1].key, &x.key)
            invariant
                0 <= j <= i,
                i < pre.len(),
                mid == files.deep_view(),
                mid.len() == pre.len() - 1,
                i <= mid.len(),
                forall|jj: int|
                    j <= jj < i ==> key_le(x@.key, (#[trigger] mid[jj]).key) && !key_le(
                        mid[jj].key,
                        x@.key,
                    ),
            decreases j,
        {
            proof {
                lemma_key_le_order(x@.key, files.deep_view()[j - 1].key, x@.key);
            }
            j = j - 1;
        }
        files.insert(j, x);
        proof {
            assert(files.deep_view() =~= mid.insert(j as int, x@));
            assert(mid.insert(j as int, x@).to_multiset() == mid.to_multiset().insert(x@));
            assert(files.deep_view().to_multiset() =~= pre.to_multiset()) by {
                assert(pre[i as int] == x@);
                assert(mid.to_multiset() == pre.to_multiset().remove(x@));
                assert(pre.to_multiset().contains(x@)) by {
                    assert(pre.contains(x@));
                }
            }
            assert forall|k: VcfFileKey|
                #[trigger] files_with_key(files.deep_view(), k) == files_with_key(pre, k) by {
                assert(mid =~= pre.remove(i as int));
                assert(forall|m: int| j <= m < i ==> #[trigger] mid[m] == pre[m]);
                assert forall|m: int| j <= m < i as int implies (#[trigger] pre[m]).key
                    != pre[i as int].key by {
                    assert(!key_le(mid[m].key, x@.key));
                }
                lemma_files_with_key_reinsert(pre, i as int, j as int, k);
            }
            let new = files.deep_view();
            assert(mid.take(i as int) =~= pre.take(i as int));
            assert(files_sorted(new.take(i as int + 1))) by {
                let t = new.take(i as int + 1);
                assert(forall|k: int| 0 <= k < j ==> #[trigger] t[k] == mid[k]);
                assert(t[j as int] == x@);
                assert(forall|k: int| j < k < t.len() ==> #[trigger] t[k] == mid[k - 1]);
                assert forall|k1: int, k2: int|
                    0 <= k1 < k2 < t.len() implies key_le(t[k1].key, t[k2].key) by {
                    if k2 == j {
                        assert(k1 < j);
                        assert(key_le(mid[j - 1].key, x@.key));
                        if k1 < j - 1 {
                            assert(key_le(mid[k1].key, mid[j - 1].key));
                            lemma_key_le_order(mid[k1].key, mid[j - 1].key, x@.key);
                        }
                    } else if k1 == j {
                        assert(j < k2);
                        assert(key_le(x@.key, mid[k2 - 1].key));
                    } else {
                        let m1: int = if k1 < j { k1 } else { k1 - 1 };
                        let m2: int = if k2 < j { k2 } else { k2 - 1 };
                        assert(t[k1] == mid[m1] && t[k2] == mid[m2]);
                        assert(0 <= m1 < m2 < i);
                        assert(key_le(mid[m1].key, mid[m2].key));
                    }
                }
            }
        }
        i = i + 1;
    }
    proof {
        assert(files.deep_view().take(i as int) =~= files.deep_view());
    }
}

/// Collects the VCF files of a listing and sorts them ascending by key.
pub fn get_vcf_files_sorted(lines: &Vec<String>) -> (r: Result<Vec<VcfFile>, Error>)
    ensures
        match r {
            Ok(files) => scan_vcfs(lines.deep_view()) is Some && files.deep_view().to_multiset()
                == scan_vcfs(lines.deep_view())->0.to_multiset() && files_sorted(
                files.deep_view(),
            ) && (forall|k: VcfFileKey|
                #[trigger] files_with_key(files.deep_view(), k) == files_with_key(
                    scan_vcfs(lines.deep_view())->0,
                    k,
                )) && (forall|k: int|
                0 <= k < files.len() ==> (#[trigger] files.deep_view()[k]).key.wf()),
            Err(_) => scan_vcfs(lines.deep_view()) is None,
        },
{
    let mut files = get_vcf_files(lines)?;
    sort_vcf_files(&mut files);
    proof {
        broadcast use vstd::seq_lib::group_to_multiset_ensures;

        lemma_scan_vcfs_wf(lines.deep_view());
        let scanned = scan_vcfs(lines.deep_view())->0;
        assert forall|k: int|
            0 <= k < files.len() implies (#[trigger] files.deep_view()[k]).key.wf() by {
            let fm = files.deep_view()[k];
            assert(files.deep_view().contains(fm));
            assert(files.deep_view().to_multiset().count(fm) > 0);
            assert(scanned.to_multiset().count(fm) > 0);
            assert(scanned.contains(fm));
            let w = choose|w: int| 0 <= w < scanned.len() && scanned[w] == fm;
            assert(scanned[w].key.wf());
        }
    }
    Ok(files)
}

/// A copy of the files, value for value.
pub fn clone_vcf_files(files: &Vec<VcfFile>) -> (r: Vec<VcfFile>)
    ensures
        r.deep_view() == files.deep_view(),
{
    let mut r: Vec<VcfFile> = Vec::new();
    let mut i: usize = 0;
    proof {
        assert(r.deep_view() =~= files.deep_view().take(0));
    }
    while i < files.len()
        invariant
            0 <= i <= files.len(),
            files.deep_view().len() == files.len(),
            r.deep_view() == files.deep_view().take(i as int),
        decreases files.len() - i,
    {
        let ghost pre = r.deep_view();
        let f = &files[i];
        r.push(VcfFile { key: f.key, name: f.name.clone() });
        proof {
            assert(files.deep_view().take(i + 1).drop_last() =~= files.deep_view().take(i as int));
            assert(r.deep_view() =~= pre.push(files.deep_view()[i as int]));
            assert(files.deep_view().take(i + 1) =~= files.deep_view().take(i as int).push(
                files.deep_view()[i as int],
            ));
        }
        i = i + 1;
    }
    proof {
        assert(files.deep_view().take(files.len() as int) =~= files.deep_view());
    }
    r
}

/// When every file's key is well formed, so is every group chromosome of
/// the grouping.
pub proof fn lemma_group_spec_chrom_wf(files: Seq<VcfFileModel>)
    requires
        forall|k: int| 0 <= k < files.len() ==> (#[trigger] files[k]).key.wf(),
    ensures
        forall|gi: int|
            0 <= gi < group_spec(files).len() ==> (#[trigger] group_spec(
                files,
            )[gi]).chromosome.wf(),
    decreases files.len(),
{
    if files.len() > 0 {
        assert(forall|k: int|
            0 <= k < files.drop_last().len() ==> #[trigger] files.drop_last()[k] == files[k]);
        lemma_group_spec_chrom_wf(files.drop_last());
        let rest = group_spec(files.drop_last());
        let whole = group_spec(files);
        let f = files.last();
        assert(f.key.wf());
        if rest.len() == 0 || rest.last().chromosome != f.key.chromosome {
            assert(forall|gi: int| 0 <= gi < rest.len() ==> #[trigger] whole[gi] == rest[gi]);
            assert(whole.last().chromosome == f.key.chromosome);
        } else {
            assert(forall|gi: int|
                0 <= gi < rest.len() - 1 ==> #[trigger] whole[gi] == rest[gi]);
            assert(whole.last().chromosome == rest.last().chromosome);
        }
    }
}

/// One block: the files of one chromosome whose sequence indices fall in
/// one window of `BLOCK_SIZE`.
pub struct VcfFileBlock {
    pub i_block: usize,
    pub files: Vec<VcfFile>,
}

/// All blocks of one chromosome, in ascending block order.
pub struct VcfFilesOfChr {
    pub chromosome: Chromosome,
    pub blocks: Vec<VcfFileBlock>,
}

/// The mathematical value of a [`VcfFileBlock`].
#[verifier::ext_equal]
pub struct BlockModel {
    pub i_block: nat,
    pub files: Seq<VcfFileModel>,
}

/// The mathematical value of a [`VcfFilesOfChr`].
#[verifier::ext_equal]
pub struct ChrGroupModel {
    pub chromosome: Chromosome,
    pub blocks: Seq<BlockModel>,
}

impl View for VcfFileBlock {
    type V = BlockModel;

    open spec fn view(&self) -> BlockModel {
        BlockModel { i_block: self.i_block as nat, files: self.files.deep_view() }
    }
}

impl DeepView for VcfFileBlock {
    type V = BlockModel;

    open spec fn deep_view(&self) -> BlockModel {
        self.view()
    }
}

impl View for VcfFilesOfChr {
    type V = ChrGroupModel;

    open spec fn view(&self) -> ChrGroupModel {
        ChrGroupModel { chromosome: self.chromosome, blocks: self.blocks.deep_view() }
    }
}

impl DeepView for VcfFilesOfChr {
    type V = ChrGroupModel;

    open spec fn deep_view(&self) -> ChrGroupModel {
        self.view()
    }
}

/// The grouping of a file sequence: a left-to-right fold that opens a new
/// chromosome group on a chromosome change, a new block on a block-index
/// change, and otherwise appends to the current block.
pub open spec fn group_spec(files: Seq<VcfFileModel>) -> Seq<ChrGroupModel>
    decreases files.len(),
{
    if files.len() == 0 {
        Seq::empty()
    } else {
        let rest = group_spec(files.drop_last());
        let f = files.last();
        let fb = f.key.i_block_spec();
        if rest.len() == 0 || rest.last().chromosome != f.key.chromosome {
            rest.push(
                ChrGroupModel {
                    chromosome: f.key.chromosome,
                    blocks: seq![BlockModel { i_block: fb, files: seq![f] }],
                },
            )
        } else {
            let g = rest.last();
            if g.blocks.len() == 0 || g.blocks.last().i_block != fb {
                rest.update(
                    rest.len() - 1,
                    ChrGroupModel {
                        chromosome: g.chromosome,
                        blocks: g.blocks.push(BlockModel { i_block: fb, files: seq![f] }),
                    },
                )
            } else {
                let b = g.blocks.last();
                rest.update(
                    rest.len() - 1,
                    ChrGroupModel {
                        chromosome: g.chromosome,
                        blocks: g.blocks.update(
                            g.blocks.len() - 1,
                            BlockModel { i_block: b.i_block, files: b.files.push(f) },
                        ),
                    },
                )
            }
        }
    }
}

/// Partitions files into per-chromosome groups of blocks. The input must be
/// sorted ascending by key; block and group boundaries are then exactly the
/// block-index and chromosome changes of the input.
pub fn group_vcf_files(files: &Vec<VcfFile>) -> (r: Vec<VcfFilesOfChr>)
    requires
        files_sorted(files.deep_view()),
    ensures
        r.deep_view() == group_spec(files.deep_view()),
{
    let mut done: Vec<VcfFilesOfChr> = Vec::new();
    if files.len() == 0 {
        proof {
            assert(done.deep_view() =~= group_spec(files.deep_view()));
        }
        return done;
    }
    let first = &files[0];
    let mut chr = first.key.chromosome;
    let mut ib = first.key.i_block();
    let mut cur_files: Vec<VcfFile> = Vec::new();
    cur_files.push(VcfFile { key: first.key, name: first.name.clone() });
    let mut blocks: Vec<VcfFileBlock> = Vec::new();
    let mut i: usize = 1;
    proof {
        let fv = files.deep_view();
        assert(fv.take(1).drop_last() =~= Seq::<VcfFileModel>::empty());
        assert(group_spec(Seq::<VcfFileModel>::empty()) == Seq::<ChrGroupModel>::empty());
        assert(fv.take(1).last() == fv[0]);
        assert(group_spec(fv.take(1)) =~~= Seq::<ChrGroupModel>::empty().push(
            ChrGroupModel {
                chromosome: fv[0].key.chromosome,
                blocks: seq![BlockModel { i_block: fv[0].key.i_block_spec(), files: seq![fv[0]] }],
            },
        ));
        assert(cur_files.deep_view() =~= seq![fv[0]]);
        assert(done.deep_view() =~= Seq::<ChrGroupModel>::empty());
        assert(blocks.deep_view() =~= Seq::<BlockModel>::empty());
        assert(group_spec(fv.take(1)) =~~= done.deep_view().push(
            ChrGroupModel {
                chromosome: chr,
                blocks: blocks.deep_view().push(
                    BlockModel { i_block: ib as nat, files: cur_files.deep_view() },
                ),
            },
        ));
    }
    while i < files.len()
        invariant
            1 <= i <= files.len(),
            files.deep_view().len() == files.len(),
            group_spec(files.deep_view().take(i as int)) == done.deep_view().push(
                ChrGroupModel {
                    chromosome: chr,
                    blocks: blocks.deep_view().push(
                        BlockModel { i_block: ib as nat, files: cur_files.deep_view() },
                    ),
                },
            ),
        decreases files.len() - i,
    {
        let ghost fv = files.deep_view();
        let ghost state = group_spec(fv.take(i as int));
        let ghost gmodel = ChrGroupModel {
            chromosome: chr,
            blocks: blocks.deep_view().push(
                BlockModel { i_block: ib as nat, files: cur_files.deep_view() },
            ),
        };
        proof {
            assert(fv.take(i + 1).drop_last() =~= fv.take(i as int));
            assert(fv.take(i + 1).last() == fv[i as int]);
            assert(state.last() == gmodel);
            assert(state.len() == done.deep_view().len() + 1);
        }
        let f = &files[i];
        let chr_new = f.key.chromosome;
        let ib_new = f.key.i_block();
        let copy = VcfFile { key: f.key, name: f.name.clone() };
        if chr_new != chr {
            let ghost old_done = done.deep_view();
            let closed_block = VcfFileBlock { i_block: ib, files: cur_files };
            blocks.push(closed_block);
            let closed_group = VcfFilesOfChr { chromosome: chr, blocks };
            done.push(closed_group);
            blocks = Vec::new();
            cur_files = Vec::new();
            cur_files.push(copy);
            chr = chr_new;
            ib = ib_new;
            proof {
                assert(done.deep_view() =~~= old_done.push(gmodel));
                assert(group_spec(fv.take(i + 1)) =~~= state.push(
                    ChrGroupModel {
                        chromosome: fv[i as int].key.chromosome,
                        blocks: seq![
                            BlockModel {
                                i_block: fv[i as int].key.i_block_spec(),
                                files: seq![fv[i as int]],
                            },
                        ],
                    },
                ));
                assert(cur_files.deep_view() =~= seq![fv[i as int]]);
                assert(blocks.deep_view() =~= Seq::<BlockModel>::empty());
                assert(group_spec(fv.take(i + 1)) =~~= done.deep_view().push(
                    ChrGroupModel {
                        chromosome: chr,
                        blocks: blocks.deep_view().push(
                            BlockModel { i_block: ib as nat, files: cur_files.deep_view() },
                        ),
                    },
                ));
            }
        } else if ib_new != ib {
            let closed_block = VcfFileBlock { i_block: ib, files: cur_files };
            blocks.push(closed_block);
            cur_files = Vec::new();
            cur_files.push(copy);
            ib = ib_new;
            proof {
                let gnew = ChrGroupModel {
                    chromosome: gmodel.chromosome,
                    blocks: gmodel.blocks.push(
                        BlockModel {
                            i_block: fv[i as int].key.i_block_spec(),
                            files: seq![fv[i as int]],
                        },
                    ),
                };
                assert(group_spec(fv.take(i + 1)) =~~= state.update(state.len() - 1, gnew));
                assert(state.update(state.len() - 1, gnew) =~~= done.deep_view().push(gnew)) by {
                    assert(state == done.deep_view().push(gmodel));
                }
                assert(blocks.deep_view() =~~= gmodel.blocks);
                assert(cur_files.deep_view() =~= seq![fv[i as int]]);
                assert(group_spec(fv.take(i + 1)) =~~= done.deep_view().push(
                    ChrGroupModel {
                        chromosome: chr,
                        blocks: blocks.deep_view().push(
                            BlockModel { i_block: ib as nat, files: cur_files.deep_view() },
                        ),
                    },
                ));
            }
        } else {
            cur_files.push(copy);
            proof {
                let bnew = BlockModel {
                    i_block: ib as nat,
                    files: gmodel.blocks.last().files.push(fv[i as int]),
                };
                let gnew = ChrGroupModel {
                    chromosome: gmodel.chromosome,
                    blocks: gmodel.blocks.update(gmodel.blocks.len() - 1, bnew),
                };
                assert(group_spec(fv.take(i + 1)) =~~= state.update(state.len() - 1, gnew));
                assert(state.update(state.len() - 1, gnew) =~~= done.deep_view().push(gnew)) by {
                    assert(state == done.deep_view().push(gmodel));
                }
                assert(cur_files.deep_view() =~= gmodel.blocks.last().files.push(fv[i as int]));
                assert(gmodel.blocks.update(gmodel.blocks.len() - 1, bnew)
                    =~~= blocks.deep_view().push(bnew));
                assert(group_spec(fv.take(i + 1)) =~~= done.deep_view().push(
                    ChrGroupModel {
                        chromosome: chr,
                        blocks: blocks.deep_view().push(
                            BlockModel { i_block: ib as nat, files: cur_files.deep_view() },
                        ),
                    },
                ));
            }
        }
        i = i + 1;
    }
    let closed_block = VcfFileBlock { i_block: ib, files: cur_files };
    blocks.push(closed_block);
    let closed_group = VcfFilesOfChr { chromosome: chr, blocks };
    done.push(closed_group);
    proof {
        assert(files.deep_view().take(files.len() as int) =~= files.deep_view());
        assert(done.deep_view() =~~= group_spec(files.deep_view()));
    }
    done
}


/// The files of a block sequence, concatenated in order.
pub open spec fn blocks_files(blocks: Seq<BlockModel>) -> Seq<VcfFileModel>
    decreases blocks.len(),
{
    if blocks.len() == 0 {
        Seq::empty()
    } else {
        blocks_files(blocks.drop_last()) + blocks.last().files
    }
}

/// The files of a group sequence, concatenated in order.
pub open spec fn groups_files(gs: Seq<ChrGroupModel>) -> Seq<VcfFileModel>
    decreases gs.len(),
{
    if gs.len() == 0 {
        Seq::empty()
    } else {
        groups_files(gs.drop_last()) + blocks_files(gs.last().blocks)
    }
}

/// Flattening the grouping of a file sequence gives the sequence back.
pub proof fn lemma_group_flatten(files: Seq<VcfFileModel>)
    ensures
        groups_files(group_spec(files)) == files,
    decreases files.len(),
{
    if files.len() == 0 {
        assert(groups_files(group_spec(files)) =~= files);
    } else {
        lemma_group_flatten(files.drop_last());
        let rest = group_spec(files.drop_last());
        let f = files.last();
        let fb = f.key.i_block_spec();
        let whole = group_spec(files);
        if rest.len() == 0 || rest.last().chromosome != f.key.chromosome {
            let gnew = ChrGroupModel {
                chromosome: f.key.chromosome,
                blocks: seq![BlockModel { i_block: fb, files: seq![f] }],
            };
            assert(whole == rest.push(gnew));
            assert(whole.drop_last() =~= rest);
            assert(whole.last() == gnew);
            assert(blocks_files(gnew.blocks) =~= seq![f]) by {
                assert(gnew.blocks.drop_last() =~= Seq::<BlockModel>::empty());
                assert(blocks_files(Seq::<BlockModel>::empty()) == Seq::<VcfFileModel>::empty());
            }
            assert(groups_files(whole) == groups_files(rest) + blocks_files(gnew.blocks));
            assert(groups_files(whole) =~= files);
        } else {
            let g = rest.last();
            if g.blocks.len() == 0 || g.blocks.last().i_block != fb {
                let bnew = BlockModel { i_block: fb, files: seq![f] };
                let gnew = ChrGroupModel { chromosome: g.chromosome, blocks: g.blocks.push(bnew) };
                assert(whole == rest.update(rest.len() - 1, gnew));
                assert(whole.drop_last() =~= rest.drop_last());
                assert(whole.last() == gnew);
                assert(blocks_files(gnew.blocks) == blocks_files(g.blocks.push(bnew)));
                assert(g.blocks.push(bnew).drop_last() =~= g.blocks);
                assert(blocks_files(gnew.blocks) == blocks_files(g.blocks) + seq![f]);
                assert(groups_files(rest) == groups_files(rest.drop_last()) + blocks_files(
                    g.blocks,
                ));
                assert(groups_files(whole) == groups_files(rest.drop_last()) + (blocks_files(
                    g.blocks,
                ) + seq![f]));
                assert(groups_files(whole) =~= (groups_files(rest.drop_last()) + blocks_files(
                    g.blocks,
                )) + seq![f]);
                assert(groups_files(whole) =~= files);
            } else {
                let b = g.blocks.last();
                let bnew = BlockModel { i_block: b.i_block, files: b.files.push(f) };
                let gnew = ChrGroupModel {
                    chromosome: g.chromosome,
                    blocks: g.blocks.update(g.blocks.len() - 1, bnew),
                };
                assert(whole == rest.update(rest.len() - 1, gnew));
                assert(whole.drop_last() =~= rest.drop_last());
                assert(whole.last() == gnew);
                assert(gnew.blocks.drop_last() =~= g.blocks.drop_last());
                assert(gnew.blocks.last() == bnew);
                assert(blocks_files(gnew.blocks) == blocks_files(g.blocks.drop_last())
                    + b.files.push(f));
                assert(blocks_files(g.blocks) == blocks_files(g.blocks.drop_last()) + b.files);
                assert(groups_files(rest) == groups_files(rest.drop_last()) + blocks_files(
                    g.blocks,
                ));
                assert(groups_files(whole) == groups_files(rest.drop_last()) + (blocks_files(
                    g.blocks.drop_last(),
                ) + b.files.push(f)));
                assert(groups_files(whole) =~= (groups_files(rest.drop_last()) + (blocks_files(
                    g.blocks.drop_last(),
                ) + b.files)).push(f));
                assert(groups_files(whole) =~= files);
            }
        }
    }
}

/// Grouping is idempotent: grouping the flattened groups of a file sequence
/// yields the same groups again.
pub proof fn lemma_group_idempotent(files: Seq<VcfFileModel>)
    ensures
        group_spec(groups_files(group_spec(files))) == group_spec(files),
{
    lemma_group_flatten(files);
}


/// Strict order on chromosomes.
pub open spec fn chrom_lt(a: Chromosome, b: Chromosome) -> bool {
    chrom_le(a, b) && a != b
}

/// A well-formed chromosome group: at least one block, blocks in strictly
/// ascending block order, every block nonempty, and every file labeled with
/// this group's chromosome and its block's index.
pub open spec fn group_wf(g: ChrGroupModel) -> bool {
    &&& g.blocks.len() > 0
    &&& forall|bi: int, bj: int|
        0 <= bi < bj < g.blocks.len() ==> (#[trigger] g.blocks[bi]).i_block < (
        #[trigger] g.blocks[bj]).i_block
    &&& forall|bi: int| 0 <= bi < g.blocks.len() ==> (#[trigger] g.blocks[bi]).files.len() > 0
    &&& forall|bi: int, fi: int|
        0 <= bi < g.blocks.len() && 0 <= fi < g.blocks[bi].files.len() ==> ((
        #[trigger] g.blocks[bi].files[fi]).key.chromosome == g.chromosome
            && g.blocks[bi].files[fi].key.i_block_spec() == g.blocks[bi].i_block)
}

/// A well-formed grouping: groups in strictly ascending chromosome order,
/// each well formed.
pub open spec fn groups_wf(gs: Seq<ChrGroupModel>) -> bool {
    &&& forall|gi: int, gj: int|
        0 <= gi < gj < gs.len() ==> chrom_lt(
            (#[trigger] gs[gi]).chromosome,
            (#[trigger] gs[gj]).chromosome,
        )
    &&& forall|gi: int| 0 <= gi < gs.len() ==> group_wf(#[trigger] gs[gi])
}

/// Grouping a sorted file sequence yields a well-formed grouping: ascending
/// chromosomes, within each chromosome strictly ascending block indices,
/// and every file in the group of its chromosome and the block of its
/// sequence-index window.
pub proof fn lemma_group_spec_wf(files: Seq<VcfFileModel>)
    requires
        files_sorted(files),
    ensures
        groups_wf(group_spec(files)),
        files.len() > 0 ==> group_spec(files).len() > 0 && group_spec(files).last().chromosome
            == files.last().key.chromosome && group_spec(files).last().blocks.len() > 0
            && group_spec(files).last().blocks.last().i_block == files.last().key.i_block_spec(),
    decreases files.len(),
{
    if files.len() == 0 {
    } else {
        let prev = files.drop_last();
        assert(files_sorted(prev)) by {
            assert(forall|i: int| 0 <= i < prev.len() ==> prev[i] == files[i]);
        }
        lemma_group_spec_wf(prev);
        let rest = group_spec(prev);
        let f = files.last();
        let fb = f.key.i_block_spec();
        let whole = group_spec(files);
        if rest.len() == 0 || rest.last().chromosome != f.key.chromosome {
            let gnew = ChrGroupModel {
                chromosome: f.key.chromosome,
                blocks: seq![BlockModel { i_block: fb, files: seq![f] }],
            };
            assert(whole == rest.push(gnew));
            assert(group_wf(gnew));
            if rest.len() > 0 {
                let pf = prev.last();
                assert(key_le(pf.key, f.key)) by {
                    assert(files[prev.len() - 1] == pf && files[files.len() - 1] == f);
                }
                assert(chrom_le(pf.key.chromosome, f.key.chromosome)) by {
                    crate::data::chromosome::lemma_chrom_le_order(
                        pf.key.chromosome,
                        pf.key.chromosome,
                        f.key.chromosome,
                    );
                }
                assert(chrom_lt(rest.last().chromosome, gnew.chromosome));
                assert forall|gi: int, gj: int|
                    0 <= gi < gj < whole.len() implies chrom_lt(
                    whole[gi].chromosome,
                    whole[gj].chromosome,
                ) by {
                    if gj == whole.len() - 1 && gi < rest.len() - 1 {
                        assert(chrom_lt(rest[gi].chromosome, rest.last().chromosome));
                        crate::data::chromosome::lemma_chrom_le_order(
                            rest[gi].chromosome,
                            rest.last().chromosome,
                            gnew.chromosome,
                        );
                    }
                }
            }
        } else {
            let g = rest.last();
            let pf = prev.last();
            assert(key_le(pf.key, f.key)) by {
                assert(files[prev.len() - 1] == pf && files[files.len() - 1] == f);
            }
            assert(g.chromosome == pf.key.chromosome);
            assert(g.chromosome == f.key.chromosome);
            assert(pf.key.chromosome == f.key.chromosome);
            assert(pf.key.i_file <= f.key.i_file);
            assert(pf.key.i_block_spec() <= fb) by {
                vstd::arithmetic::div_mod::lemma_div_is_ordered(
                    pf.key.i_file as int,
                    f.key.i_file as int,
                    BLOCK_SIZE as int,
                );
            }
            if g.blocks.len() == 0 || g.blocks.last().i_block != fb {
                let bnew = BlockModel { i_block: fb, files: seq![f] };
                let gnew = ChrGroupModel { chromosome: g.chromosome, blocks: g.blocks.push(bnew) };
                assert(whole == rest.update(rest.len() - 1, gnew));
                assert(g.blocks.last().i_block == pf.key.i_block_spec());
                assert(g.blocks.last().i_block < fb);
                assert(group_wf(gnew)) by {
                    assert(group_wf(g));
                    assert forall|bi: int, bj: int|
                        0 <= bi < bj < gnew.blocks.len() implies gnew.blocks[bi].i_block
                        < gnew.blocks[bj].i_block by {
                        if bj == gnew.blocks.len() - 1 {
                            if bi < g.blocks.len() - 1 {
                                assert(g.blocks[bi].i_block < g.blocks.last().i_block);
                            }
                        }
                    }
                }
                assert(groups_wf(whole)) by {
                    assert(forall|gi: int|
                        0 <= gi < whole.len() - 1 ==> whole[gi] == #[trigger] rest[gi]);
                }
            } else {
                let b = g.blocks.last();
                assert(b.i_block == fb);
                let bnew = BlockModel { i_block: b.i_block, files: b.files.push(f) };
                let gnew = ChrGroupModel {
                    chromosome: g.chromosome,
                    blocks: g.blocks.update(g.blocks.len() - 1, bnew),
                };
                assert(whole == rest.update(rest.len() - 1, gnew));
                assert(group_wf(gnew)) by {
                    assert(group_wf(g));
                    assert(forall|bi: int|
                        0 <= bi < gnew.blocks.len() - 1 ==> gnew.blocks[bi] == #[trigger] g.blocks[bi]);
                    assert(gnew.blocks.last() == bnew);
                    assert forall|bi: int, fi: int|
                        0 <= bi < gnew.blocks.len() && 0 <= fi < gnew.blocks[bi].files.len()
                        implies (gnew.blocks[bi].files[fi].key.chromosome == gnew.chromosome
                            && gnew.blocks[bi].files[fi].key.i_block_spec()
                            == gnew.blocks[bi].i_block) by {
                        if bi == gnew.blocks.len() - 1 {
                            if fi < bnew.files.len() - 1 {
                                assert(bnew.files[fi] == b.files[fi]);
                                assert(g.blocks[bi].files[fi] == b.files[fi]);
                            }
                        }
                    }
                }
                assert(groups_wf(whole)) by {
                    assert(forall|gi: int|
                        0 <= gi < whole.len() - 1 ==> whole[gi] == #[trigger] rest[gi]);
                }
            }
        }
    }
}


/// Parsing a file name written in the VCF grammar recovers exactly the
/// chromosome and sequence index it was written with, whatever the prefix
/// and whichever accepted chromosome token was used.
pub proof fn lemma_vcf_basename_round_trip(
    prefix: Seq<char>,
    token: Seq<char>,
    digits: Seq<char>,
    c: Chromosome,
)
    requires
        forall|i: int| 0 <= i < prefix.len() ==> prefix[i] != '_',
        forall|i: int| 0 <= i < token.len() ==> token[i] != '_',
        parse_chrom_spec(token) == Some(c),
        digits.len() > 0,
        all_digits(digits),
        dec_val(digits) <= usize::MAX,
    ensures
        parse_vcf_key_spec(prefix + seq!['_'] + token + seq!['_', 'b'] + digits) == Some(
            VcfFileKey { chromosome: c, i_file: dec_val(digits) as usize },
        ),
{
    let third = seq!['b'] + digits;
    assert(forall|i: int| 0 <= i < third.len() ==> third[i] != '_') by {
        assert(forall|i: int| 1 <= i < third.len() ==> third[i] == #[trigger] digits[i - 1]);
    }
    let base = prefix + seq!['_'] + token + seq!['_', 'b'] + digits;
    assert(base =~= prefix + seq!['_'] + (token + seq!['_'] + third));
    crate::text::lemma_split_join(prefix, token + seq!['_'] + third);
    crate::text::lemma_split_join(token, third);
    crate::text::lemma_split_solo(third);
    let parts = split_parts(base);
    assert(parts =~~= seq![prefix, token, third]) by {
        assert(split_parts(token + seq!['_'] + third) == seq![token] + split_parts(third));
    }
    assert(parts[1] == token);
    assert(parts[2] == third);
    assert(third[0] == 'b');
    assert(third.skip(1) =~= digits);
    assert(third.len() > 1);
}

/// Parsing the canonical rendering of a key, under any separator-free
/// prefix, gives the key back.
pub proof fn lemma_vcf_name_round_trip(prefix: Seq<char>, key: VcfFileKey)
    requires
        key.wf(),
        forall|i: int| 0 <= i < prefix.len() ==> prefix[i] != '_',
    ensures
        parse_vcf_key_spec(
            prefix + seq!['_'] + crate::data::chromosome::chrom_str(key.chromosome) + seq![
                '_', 'b',
            ] + crate::text::dec_str(key.i_file as nat),
        ) == Some(key),
{
    let token = crate::data::chromosome::chrom_str(key.chromosome);
    let digits = crate::text::dec_str(key.i_file as nat);
    crate::text::lemma_dec_str_val(key.i_file as nat);
    crate::data::chromosome::lemma_chrom_round_trip(key.chromosome);
    assert(forall|i: int| 0 <= i < token.len() ==> token[i] != '_') by {
        match key.chromosome {
            Chromosome::Auto(n) => {
                crate::text::lemma_dec_str_val(n as nat);
            },
            Chromosome::Allo(sym) => {},
        }
    }
    lemma_vcf_basename_round_trip(prefix, token, digits, key.chromosome);
}


/// The number of blocks over all groups.
pub open spec fn total_blocks(gs: Seq<ChrGroupModel>) -> nat
    decreases gs.len(),
{
    if gs.len() == 0 {
        0
    } else {
        total_blocks(gs.drop_last()) + gs.last().blocks.len()
    }
}

/// A front segment never holds more files than the whole.
proof fn lemma_blocks_files_take_le(blocks: Seq<BlockModel>, i: int)
    requires
        0 <= i <= blocks.len(),
    ensures
        blocks_files(blocks.take(i)).len() <= blocks_files(blocks).len(),
    decreases blocks.len() - i,
{
    if i < blocks.len() {
        assert(blocks.take(i + 1).drop_last() =~= blocks.take(i));
        lemma_blocks_files_take_le(blocks, i + 1);
    } else {
        assert(blocks.take(i) =~= blocks);
    }
}

/// A front segment never holds more files than the whole.
proof fn lemma_groups_files_take_le(gs: Seq<ChrGroupModel>, i: int)
    requires
        0 <= i <= gs.len(),
    ensures
        groups_files(gs.take(i)).len() <= groups_files(gs).len(),
    decreases gs.len() - i,
{
    if i < gs.len() {
        assert(gs.take(i + 1).drop_last() =~= gs.take(i));
        lemma_groups_files_take_le(gs, i + 1);
    } else {
        assert(gs.take(i) =~= gs);
    }
}

/// A front segment never holds more blocks than the whole.
proof fn lemma_total_blocks_take_le(gs: Seq<ChrGroupModel>, i: int)
    requires
        0 <= i <= gs.len(),
    ensures
        total_blocks(gs.take(i)) <= total_blocks(gs),
    decreases gs.len() - i,
{
    if i < gs.len() {
        assert(gs.take(i + 1).drop_last() =~= gs.take(i));
        lemma_total_blocks_take_le(gs, i + 1);
    } else {
        assert(gs.take(i) =~= gs);
    }
}

/// The survey line of one chromosome group.
pub open spec fn chrom_survey_line(g: ChrGroupModel) -> Seq<char> {
    seq!['C', 'h', 'r', 'o', 'm', 'o', 's', 'o', 'm', 'e', ' '] + crate::data::chromosome::chrom_str(
        g.chromosome,
    ) + seq![' ', 'h', 'a', 's', ' '] + crate::text::dec_str(blocks_files(g.blocks).len()) + seq![
        ' ', 'f', 'i', 'l', 'e', 's', ' ', 'i', 'n', ' ',
    ] + crate::text::dec_str(g.blocks.len()) + seq![' ', 'b', 'l', 'o', 'c', 'k', 's']
}

/// The survey lines of the chromosome groups, in order.
pub open spec fn chrom_survey_lines(gs: Seq<ChrGroupModel>) -> Seq<Seq<char>>
    decreases gs.len(),
{
    if gs.len() == 0 {
        Seq::empty()
    } else {
        chrom_survey_lines(gs.drop_last()).push(chrom_survey_line(gs.last()))
    }
}

/// The whole survey: where the files sit, one line per chromosome, and
/// the totals.
pub open spec fn survey_vcf_lines(dir: Seq<char>, gs: Seq<ChrGroupModel>) -> Seq<Seq<char>> {
    seq![seq!['V', 'C', 'F', ' ', 'f', 'i', 'l', 'e', 's', ' ', 'a', 'r', 'e', ' ', 'h', 'e', 'r', 'e', ':', ' '] + dir]
        + chrom_survey_lines(gs) + seq![
        seq!['T', 'h', 'e', 'r', 'e', ' ', 'a', 'r', 'e', ' '] + crate::text::dec_str(
            groups_files(gs).len(),
        ) + seq![' ', 'f', 'i', 'l', 'e', 's', ' ', 'i', 'n', ' '] + crate::text::dec_str(
            total_blocks(gs),
        ) + seq![
            ' ', 'b', 'l', 'o', 'c', 'k', 's', ' ', 'a', 'n', 'd', ' ',
        ] + crate::text::dec_str(gs.len()) + seq![
            ' ', 'c', 'h', 'r', 'o', 'm', 'o', 's', 'o', 'm', 'e', 's', '.',
        ],
    ]
}

/// Builds the survey report of grouped VCF files: where they sit, how many
/// files and blocks each chromosome has, and the totals.
pub fn survey_vcfs(vcfs_dir: &str, files_by_chr: &Vec<VcfFilesOfChr>) -> (r: Vec<String>)
    requires
        forall|gi: int|
            0 <= gi < files_by_chr.len() ==> (
            #[trigger] files_by_chr.deep_view()[gi]).chromosome.wf(),
        groups_files(files_by_chr.deep_view()).len() <= usize::MAX,
        total_blocks(files_by_chr.deep_view()) <= usize::MAX,
    ensures
        r.deep_view() == survey_vcf_lines(vcfs_dir@, files_by_chr.deep_view()),
{
    proof {
        reveal_strlit("VCF files are here: ");
        reveal_strlit("Chromosome ");
        reveal_strlit(" has ");
        reveal_strlit(" files in ");
        reveal_strlit(" blocks");
        reveal_strlit("There are ");
        reveal_strlit(" blocks and ");
        reveal_strlit(" chromosomes.");
    }
    let ghost gv = files_by_chr.deep_view();
    let mut lines: Vec<String> = Vec::new();
    let header = String::from_str("VCF files are here: ").concat(vcfs_dir);
    lines.push(header);
    let mut n_files: usize = 0;
    let mut n_blocks: usize = 0;
    let mut n_chrs: usize = 0;
    let mut gi: usize = 0;
    proof {
        assert(gv.take(0) =~= Seq::<ChrGroupModel>::empty());
        assert(chrom_survey_lines(gv.take(0)) =~= Seq::<Seq<char>>::empty());
        assert(lines.deep_view() =~~= seq![
            seq!['V', 'C', 'F', ' ', 'f', 'i', 'l', 'e', 's', ' ', 'a', 'r', 'e', ' ', 'h', 'e', 'r', 'e', ':', ' ']
                + vcfs_dir@,
        ]);
        assert(lines.deep_view() =~~= seq![
            seq!['V', 'C', 'F', ' ', 'f', 'i', 'l', 'e', 's', ' ', 'a', 'r', 'e', ' ', 'h', 'e', 'r', 'e', ':', ' ']
                + vcfs_dir@,
        ] + chrom_survey_lines(gv.take(0)));
    }
    while gi < files_by_chr.len()
        invariant
            0 <= gi <= files_by_chr.len(),
            gv == files_by_chr.deep_view(),
            gv.len() == files_by_chr.len(),
            forall|k: int| 0 <= k < gv.len() ==> (#[trigger] gv[k]).chromosome.wf(),
            groups_files(gv).len() <= usize::MAX,
            total_blocks(gv) <= usize::MAX,
            n_files == groups_files(gv.take(gi as int)).len(),
            n_blocks == total_blocks(gv.take(gi as int)),
            n_chrs == gi,
            lines.deep_view() == seq![
                seq!['V', 'C', 'F', ' ', 'f', 'i', 'l', 'e', 's', ' ', 'a', 'r', 'e', ' ', 'h', 'e', 'r', 'e', ':', ' ']
                    + vcfs_dir@,
            ] + chrom_survey_lines(gv.take(gi as int)),
        decreases files_by_chr.len() - gi,
    {
        let g = &files_by_chr[gi];
        let ghost bv = g.blocks.deep_view();
        proof {
            assert(gv[gi as int] == g.deep_view());
            assert(gv.take(gi + 1).drop_last() =~= gv.take(gi as int));
            assert(gv.take(gi + 1).last() == gv[gi as int]);
            assert(groups_files(gv.take(gi + 1)) == groups_files(gv.take(gi as int))
                + blocks_files(gv[gi as int].blocks));
            assert(total_blocks(gv.take(gi + 1)) == total_blocks(gv.take(gi as int))
                + gv[gi as int].blocks.len());
            lemma_groups_files_take_le(gv, gi + 1);
            lemma_total_blocks_take_le(gv, gi + 1);
        }
        let mut n_files_for_chr: usize = 0;
        let mut bi: usize = 0;
        proof {
            assert(bv.take(0) =~= Seq::<BlockModel>::empty());
            assert(blocks_files(bv.take(0)) =~= Seq::<VcfFileModel>::empty());
        }
        while bi < g.blocks.len()
            invariant
                0 <= bi <= g.blocks.len(),
                bv == g.blocks.deep_view(),
                bv.len() == g.blocks.len(),
                blocks_files(bv).len() <= usize::MAX,
                n_files_for_chr == blocks_files(bv.take(bi as int)).len(),
            decreases g.blocks.len() - bi,
        {
            proof {
                assert(bv.take(bi + 1).drop_last() =~= bv.take(bi as int));
                assert(bv.take(bi + 1).last() == bv[bi as int]);
                assert(blocks_files(bv.take(bi + 1)) == blocks_files(bv.take(bi as int))
                    + bv[bi as int].files);
                lemma_blocks_files_take_le(bv, bi + 1);
                assert(bv[bi as int].files.len() == g.blocks[bi as int].files.len());
            }
            n_files_for_chr = n_files_for_chr + g.blocks[bi].files.len();
            bi = bi + 1;
        }
        proof {
            assert(bv.take(g.blocks.len() as int) =~= bv);
        }
        let n_blocks_for_chr = g.blocks.len();
        let line = String::from_str("Chromosome ").concat(g.chromosome.text().as_str()).concat(
            " has ",
        ).concat(crate::text::usize_to_string(n_files_for_chr).as_str()).concat(
            " files in ",
        ).concat(crate::text::usize_to_string(n_blocks_for_chr).as_str()).concat(" blocks");
        proof {
            reveal_strlit("Chromosome ");
            reveal_strlit(" has ");
            reveal_strlit(" files in ");
            reveal_strlit(" blocks");
            assert(bv =~= gv[gi as int].blocks);
            assert(n_files_for_chr as nat == blocks_files(gv[gi as int].blocks).len());
            assert(n_blocks_for_chr as nat == gv[gi as int].blocks.len());
            assert(crate::data::chromosome::chrom_str(g.chromosome)
                == crate::data::chromosome::chrom_str(gv[gi as int].chromosome));
            assert(line@ =~= chrom_survey_line(gv[gi as int]));
        }
        let ghost pre = lines.deep_view();
        lines.push(line);
        proof {
            assert(lines.deep_view() =~= pre.push(chrom_survey_line(gv[gi as int])));
            assert(chrom_survey_lines(gv.take(gi + 1)) == chrom_survey_lines(gv.take(gi as int)).push(
                chrom_survey_line(gv[gi as int]),
            ));
            assert(lines.deep_view() =~~= seq![
                seq!['V', 'C', 'F', ' ', 'f', 'i', 'l', 'e', 's', ' ', 'a', 'r', 'e', ' ', 'h', 'e', 'r', 'e', ':', ' ']
                    + vcfs_dir@,
            ] + chrom_survey_lines(gv.take(gi + 1)));
        }
        n_chrs = n_chrs + 1;
        n_blocks = n_blocks + n_blocks_for_chr;
        n_files = n_files + n_files_for_chr;
        gi = gi + 1;
    }
    proof {
        assert(gv.take(files_by_chr.len() as int) =~= gv);
    }
    let total = String::from_str("There are ").concat(
        crate::text::usize_to_string(n_files).as_str(),
    ).concat(" files in ").concat(crate::text::usize_to_string(n_blocks).as_str()).concat(
        " blocks and ",
    ).concat(crate::text::usize_to_string(n_chrs).as_str()).concat(" chromosomes.");
    let ghost total_view = total@;
    lines.push(total);
    proof {
        assert(total_view =~= seq!['T', 'h', 'e', 'r', 'e', ' ', 'a', 'r', 'e', ' ']
            + crate::text::dec_str(groups_files(gv).len()) + seq![
            ' ', 'f', 'i', 'l', 'e', 's', ' ', 'i', 'n', ' ',
        ] + crate::text::dec_str(total_blocks(gv)) + seq![
            ' ', 'b', 'l', 'o', 'c', 'k', 's', ' ', 'a', 'n', 'd', ' ',
        ] + crate::text::dec_str(gv.len()) + seq![
            ' ', 'c', 'h', 'r', 'o', 'm', 'o', 's', 'o', 'm', 'e', 's', '.',
        ]);
        assert(lines.deep_view() =~~= survey_vcf_lines(vcfs_dir@, gv));
    }
    lines
}

/// The error for a VCF file name that does not fit the grammar.
fn cannot_parse_vcf(name: &str) -> (e: Error)
    ensures
        e.kind_spec() == ErrorKind::Udix,
{
    proof {
        reveal_strlit("Cannot parse VCF file '");
        reveal_strlit("'.");
    }
    let message = String::from_str("Cannot parse VCF file '").concat(name).concat("'.");
    Error::new(ErrorKind::Udix, message, None)
}

} // verus!
