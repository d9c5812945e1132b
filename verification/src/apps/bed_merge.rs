//! The BED-bundle merging app: one job per chromosome, its manifest
//! listing the remote paths of every bundle's bed, bim and fam members.

use vstd::prelude::*;
use crate::apps::{App, JobStaged};
use crate::conf::Conf;
use crate::data::beds::{
    bed_scan, bundle_basename_str, bundles_sorted, buf_empty, file_type_str,
    get_bed_bundles_by_chrom, init_buf, lines_sorted, BedBundle, BedBundlesOfChr, ChrBundlesModel,
    FileType,
};
use crate::data::chromosome::chrom_str;
use crate::error::Error;

verus! {

/// One staged merge job: all bundles of one chromosome.
pub struct JobBedMerge {
    pub bed_bundles_of_chr: BedBundlesOfChr,
}

impl JobStaged for JobBedMerge {
    open spec fn prefix_spec() -> Seq<char> {
        seq!['b', 'e', 'd', 'm', 'e', 'r', 'g', 'e']
    }

    open spec fn name_spec(&self) -> Seq<char> {
        Self::prefix_spec() + seq!['_', 'c'] + chrom_str(self.bed_bundles_of_chr.chromosome)
    }

    open spec fn wf(&self) -> bool {
        &&& self.bed_bundles_of_chr.chromosome.wf()
        &&& forall|k: int|
            0 <= k < self.bed_bundles_of_chr.bed_bundles.len() ==> (
            #[trigger] self.bed_bundles_of_chr.bed_bundles.deep_view()[k]).chromosome.wf()
    }

    fn prefix() -> (r: &'static str) {
        proof {
            reveal_strlit("bedmerge");
            assert("bedmerge"@ =~= Self::prefix_spec());
        }
        "bedmerge"
    }

    fn name(&self) -> (r: String) {
        proof {
            reveal_strlit("_c");
        }
        let r = String::from_str(Self::prefix()).concat("_c").concat(
            self.bed_bundles_of_chr.chromosome.text().as_str(),
        );
        proof {
            assert(r@ =~= self.name_spec());
        }
        r
    }
}

/// The input manifest of one merge job: the remote paths of every
/// bundle's three member files, and the output prefix, which is the job's
/// own name.
pub struct Inputs {
    pub beds: Vec<String>,
    pub bims: Vec<String>,
    pub fams: Vec<String>,
    pub out_prefix: String,
}

/// The mathematical value of an [`Inputs`].
#[verifier::ext_equal]
pub struct InputsModel {
    pub beds: Seq<Seq<char>>,
    pub bims: Seq<Seq<char>>,
    pub fams: Seq<Seq<char>>,
    pub out_prefix: Seq<char>,
}

impl DeepView for Inputs {
    type V = InputsModel;

    open spec fn deep_view(&self) -> InputsModel {
        InputsModel {
            beds: self.beds.deep_view(),
            bims: self.bims.deep_view(),
            fams: self.fams.deep_view(),
            out_prefix: self.out_prefix@,
        }
    }
}

/// The remote path of one member file of a bundle.
pub open spec fn in_file_path(
    beds_dir: Seq<char>,
    bundle: crate::data::beds::BundleModel,
    ft: FileType,
) -> Seq<char> {
    beds_dir + bundle_basename_str(bundle) + seq!['.'] + file_type_str(ft)
}

/// Builds the remote path of one member file of a bundle.
pub fn in_file_link(conf: &Conf, bed_bundle: &BedBundle, file_type: &FileType) -> (r: String)
    requires
        bed_bundle.chromosome.wf(),
    ensures
        r@ == in_file_path(conf.data.beds_dir@, bed_bundle@, *file_type),
{
    let r = String::from_str(conf.data.beds_dir.as_str()).concat(
        bed_bundle.file_name(file_type).as_str(),
    );
    proof {
        assert(r@ =~= in_file_path(conf.data.beds_dir@, bed_bundle@, *file_type));
    }
    r
}

/// The chromosome groups of a job list.
pub open spec fn job_groups(jobs: Seq<JobBedMerge>) -> Seq<ChrBundlesModel> {
    Seq::new(jobs.len(), |i: int| jobs[i].bed_bundles_of_chr.deep_view())
}

/// The app: merge each chromosome's bed bundles into one data set.
pub struct AppBedMerge {}

impl App for AppBedMerge {
    type Job = JobBedMerge;

    type Inputs = Inputs;

    /// The jobs carry exactly the chromosome groups of the bundles matched
    /// from the listing, sorted and grouped by chromosome.
    open spec fn job_list_ok(lines: Seq<Seq<char>>, jobs: Seq<JobBedMerge>) -> bool {
        forall|sl: Seq<Seq<char>>|
            #[trigger] lines_sorted(sl) && sl.to_multiset() == lines.to_multiset()
                ==> match bed_scan(sl, init_buf(), Seq::empty()) {
                None => false,
                Some((m, bs)) => buf_empty(m) && (forall|sb: Seq<crate::data::beds::BundleModel>|
                    #[trigger] bundles_sorted(sb) && sb.to_multiset() == bs.to_multiset()
                        ==> job_groups(jobs) == crate::data::beds::group_bundles_spec(sb)),
            }
    }

    /// The listings on which bundle matching fails: a duplicate member, a
    /// bad basename, or members left unmatched at the end.
    open spec fn job_list_fails(lines: Seq<Seq<char>>) -> bool {
        forall|sl: Seq<Seq<char>>|
            #[trigger] lines_sorted(sl) && sl.to_multiset() == lines.to_multiset()
                ==> match bed_scan(sl, init_buf(), Seq::empty()) {
                None => true,
                Some((m, _)) => !buf_empty(m),
            }
    }

    open spec fn inputs_model(job: &JobBedMerge, conf: &Conf) -> InputsModel {
        let bundles = job.bed_bundles_of_chr.bed_bundles.deep_view();
        InputsModel {
            beds: Seq::new(
                bundles.len(),
                |i: int| in_file_path(conf.data.beds_dir@, bundles[i], FileType::Bed),
            ),
            bims: Seq::new(
                bundles.len(),
                |i: int| in_file_path(conf.data.beds_dir@, bundles[i], FileType::Bim),
            ),
            fams: Seq::new(
                bundles.len(),
                |i: int| in_file_path(conf.data.beds_dir@, bundles[i], FileType::Fam),
            ),
            out_prefix: job.name_spec(),
        }
    }

    fn create_job_list_unfiltered(lines: &Vec<String>) -> (r: Result<Vec<JobBedMerge>, Error>) {
        let grouped = match get_bed_bundles_by_chrom(lines) {
            Ok(v) => v,
            Err(e) => {
                return Err(e);
            },
        };
        let ghost gv = grouped.deep_view();
        let mut rest = grouped;
        let total = rest.len();
        let mut jobs: Vec<JobBedMerge> = Vec::new();
        let mut i: usize = 0;
        proof {
            assert(gv.take(0) =~= Seq::<ChrBundlesModel>::empty());
            assert(job_groups(jobs@) =~= gv.take(0));
            assert(rest.deep_view() =~= gv.skip(0));
        }
        while rest.len() > 0
            invariant
                0 <= i <= total,
                total == gv.len(),
                rest.deep_view() == gv.skip(i as int),
                rest.deep_view().len() == rest.len(),
                job_groups(jobs@) == gv.take(i as int),
                forall|gi: int| 0 <= gi < gv.len() ==> (#[trigger] gv[gi]).chromosome.wf(),
                forall|gi: int, bi: int|
                    0 <= gi < gv.len() && 0 <= bi < gv[gi].bundles.len() ==> (
                    #[trigger] gv[gi].bundles[bi]).chromosome.wf(),
                forall|k: int| 0 <= k < jobs.len() ==> (#[trigger] jobs@[k]).wf(),
            decreases rest.len(),
        {
            proof {
                assert(gv.skip(i as int)[0] == gv[i as int]);
            }
            let ghost old_rest = rest.deep_view();
            let g = rest.remove(0);
            proof {
                assert(rest.deep_view() =~= old_rest.skip(1));
                assert(old_rest.skip(1) =~= gv.skip(i + 1));
                assert(g.deep_view() == gv[i as int]);
            }
            let ghost pre = jobs@;
            jobs.push(JobBedMerge { bed_bundles_of_chr: g });
            proof {
                assert(gv.take(i + 1) =~= gv.take(i as int).push(gv[i as int]));
                assert(job_groups(jobs@) =~= job_groups(pre).push(gv[i as int]));
                assert(jobs@[jobs.len() - 1].wf()) by {
                    let j = jobs@[jobs.len() - 1];
                    assert(j.bed_bundles_of_chr.deep_view() == gv[i as int]);
                    assert(j.bed_bundles_of_chr.chromosome == gv[i as int].chromosome);
                    assert(j.bed_bundles_of_chr.bed_bundles.deep_view() == gv[i as int].bundles);
                    assert forall|k: int|
                        0 <= k < j.bed_bundles_of_chr.bed_bundles.len() implies (
                    #[trigger] j.bed_bundles_of_chr.bed_bundles.deep_view()[k]).chromosome.wf() by {
                        assert(gv[i as int].bundles[k].chromosome.wf());
                    }
                }
            }
            i = i + 1;
        }
        proof {
            assert(gv.skip(i as int).len() == 0);
            assert(i == total);
            assert(gv.take(i as int) =~= gv);
        }
        Ok(jobs)
    }

    fn create_inputs_definition(job: &JobBedMerge, conf: &Conf) -> (r: Result<Inputs, Error>) {
        let mut beds: Vec<String> = Vec::new();
        let mut bims: Vec<String> = Vec::new();
        let mut fams: Vec<String> = Vec::new();
        let ghost bv = job.bed_bundles_of_chr.bed_bundles.deep_view();
        let mut i: usize = 0;
        proof {
            assert(beds.deep_view() =~= Seq::<Seq<char>>::empty());
            assert(bims.deep_view() =~= Seq::<Seq<char>>::empty());
            assert(fams.deep_view() =~= Seq::<Seq<char>>::empty());
        }
        while i < job.bed_bundles_of_chr.bed_bundles.len()
            invariant
                0 <= i <= job.bed_bundles_of_chr.bed_bundles.len(),
                bv == job.bed_bundles_of_chr.bed_bundles.deep_view(),
                bv.len() == job.bed_bundles_of_chr.bed_bundles.len(),
                forall|k: int| 0 <= k < bv.len() ==> (#[trigger] bv[k]).chromosome.wf(),
                beds.deep_view() == Seq::new(
                    i as nat,
                    |k: int| in_file_path(conf.data.beds_dir@, bv[k], FileType::Bed),
                ),
                bims.deep_view() == Seq::new(
                    i as nat,
                    |k: int| in_file_path(conf.data.beds_dir@, bv[k], FileType::Bim),
                ),
                fams.deep_view() == Seq::new(
                    i as nat,
                    |k: int| in_file_path(conf.data.beds_dir@, bv[k], FileType::Fam),
                ),
            decreases job.bed_bundles_of_chr.bed_bundles.len() - i,
        {
            let ghost pre_beds = beds.deep_view();
            let ghost pre_bims = bims.deep_view();
            let ghost pre_fams = fams.deep_view();
            let bundle = &job.bed_bundles_of_chr.bed_bundles[i];
            proof {
                assert(bundle@ == bv[i as int]);
                assert(bv[i as int].chromosome.wf());
            }
            beds.push(in_file_link(conf, bundle, &FileType::Bed));
            bims.push(in_file_link(conf, bundle, &FileType::Bim));
            fams.push(in_file_link(conf, bundle, &FileType::Fam));
            proof {
                assert(beds.deep_view() =~= pre_beds.push(
                    in_file_path(conf.data.beds_dir@, bv[i as int], FileType::Bed),
                ));
                assert(bims.deep_view() =~= pre_bims.push(
                    in_file_path(conf.data.beds_dir@, bv[i as int], FileType::Bim),
                ));
                assert(fams.deep_view() =~= pre_fams.push(
                    in_file_path(conf.data.beds_dir@, bv[i as int], FileType::Fam),
                ));
                assert(beds.deep_view() =~= Seq::new(
                    i as nat + 1,
                    |k: int| in_file_path(conf.data.beds_dir@, bv[k], FileType::Bed),
                ));
                assert(bims.deep_view() =~= Seq::new(
                    i as nat + 1,
                    |k: int| in_file_path(conf.data.beds_dir@, bv[k], FileType::Bim),
                ));
                assert(fams.deep_view() =~= Seq::new(
                    i as nat + 1,
                    |k: int| in_file_path(conf.data.beds_dir@, bv[k], FileType::Fam),
                ));
            }
            i = i + 1;
        }
        let out_prefix = job.name();
        let inputs = Inputs { beds, bims, fams, out_prefix };
        proof {
            assert(inputs.deep_view() =~~= Self::inputs_model(job, conf));
        }
        Ok(inputs)
    }
}


/// Job names are collision-free: two well-formed jobs with the same name
/// merge the same chromosome.
pub proof fn lemma_bedmerge_name_injective(a: JobBedMerge, b: JobBedMerge)
    requires
        a.wf(),
        b.wf(),
        a.name_spec() == b.name_spec(),
    ensures
        a.bed_bundles_of_chr.chromosome == b.bed_bundles_of_chr.chromosome,
{
    lemma_bedmerge_name_parts(a);
    lemma_bedmerge_name_parts(b);
    let pa = crate::text::split_parts(a.name_spec());
    assert(pa[1] == seq!['c'] + chrom_str(a.bed_bundles_of_chr.chromosome) && pa[1] == seq!['c']
        + chrom_str(b.bed_bundles_of_chr.chromosome));
    crate::data::chromosome::lemma_chrom_c_token_round_trip(a.bed_bundles_of_chr.chromosome);
    crate::data::chromosome::lemma_chrom_c_token_round_trip(b.bed_bundles_of_chr.chromosome);
}

/// The pieces of a job name: the kind prefix and the chromosome token.
proof fn lemma_bedmerge_name_parts(j: JobBedMerge)
    requires
        j.wf(),
    ensures
        crate::text::split_parts(j.name_spec()) == seq![
            JobBedMerge::prefix_spec(),
            seq!['c'] + chrom_str(j.bed_bundles_of_chr.chromosome),
        ],
{
    let p = JobBedMerge::prefix_spec();
    let c = j.bed_bundles_of_chr.chromosome;
    let ctok = seq!['c'] + chrom_str(c);
    assert(forall|i: int| 0 <= i < p.len() ==> p[i] != '_');
    assert(forall|i: int| 0 <= i < ctok.len() ==> ctok[i] != '_') by {
        match c {
            crate::data::chromosome::Chromosome::Auto(n) => {
                crate::text::lemma_dec_str_val(n as nat);
                assert(forall|i: int|
                    1 <= i < ctok.len() ==> ctok[i] == #[trigger] chrom_str(c)[i - 1]);
            },
            crate::data::chromosome::Chromosome::Allo(sym) => {},
        }
    }
    assert(j.name_spec() =~= p + seq!['_'] + ctok);
    crate::text::lemma_split_join(p, ctok);
    crate::text::lemma_split_solo(ctok);
}

} // verus!
