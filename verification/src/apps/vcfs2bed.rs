//! The VCF-to-BED conversion app: one job per block of VCF files, its
//! manifest listing the block's remote file paths.

use vstd::prelude::*;
use crate::apps::{App, JobStaged};
use crate::conf::Conf;
use crate::data::chromosome::{chrom_str, Chromosome};
use crate::data::vcfs::{
    clone_vcf_files, files_sorted, get_vcf_files_sorted, group_spec, group_vcf_files,
    lemma_group_spec_chrom_wf, scan_vcfs, BlockModel, ChrGroupModel, VcfFileBlock,
};
use crate::error::Error;
use crate::text::dec_str;

verus! {

/// One staged VCF-to-BED job: a chromosome and one block of its files.
pub struct JobVcfs2Bed {
    pub chromosome: Chromosome,
    pub block: VcfFileBlock,
}

impl JobStaged for JobVcfs2Bed {
    open spec fn prefix_spec() -> Seq<char> {
        seq!['v', 'c', 'f', 's', '2', 'b', 'e', 'd']
    }

    open spec fn name_spec(&self) -> Seq<char> {
        Self::prefix_spec() + seq!['_', 'c'] + chrom_str(self.chromosome) + seq!['_', 'b']
            + dec_str(self.block.i_block as nat)
    }

    open spec fn wf(&self) -> bool {
        self.chromosome.wf()
    }

    fn prefix() -> (r: &'static str) {
        proof {
            reveal_strlit("vcfs2bed");
            assert("vcfs2bed"@ =~= Self::prefix_spec());
        }
        "vcfs2bed"
    }

    fn name(&self) -> (r: String) {
        proof {
            reveal_strlit("_c");
            reveal_strlit("_b");
        }
        let r = String::from_str(Self::prefix()).concat("_c").concat(
            self.chromosome.text().as_str(),
        ).concat("_b").concat(crate::text::usize_to_string(self.block.i_block).as_str());
        proof {
            assert(r@ =~= self.name_spec());
        }
        r
    }
}

/// The input manifest of one VCF-to-BED job: the remote paths of the
/// block's files, and the output prefix, which is the job's own name.
pub struct Inputs {
    pub vcfs: Vec<String>,
    pub out_prefix: String,
}

/// The mathematical value of an [`Inputs`].
#[verifier::ext_equal]
pub struct InputsModel {
    pub vcfs: Seq<Seq<char>>,
    pub out_prefix: Seq<char>,
}

impl DeepView for Inputs {
    type V = InputsModel;

    open spec fn deep_view(&self) -> InputsModel {
        InputsModel { vcfs: self.vcfs.deep_view(), out_prefix: self.out_prefix@ }
    }
}

/// The chromosome-and-block pairs of one group, in block order.
pub open spec fn chrom_blocks(g: ChrGroupModel) -> Seq<(Chromosome, BlockModel)> {
    Seq::new(g.blocks.len(), |i: int| (g.chromosome, g.blocks[i]))
}

/// The chromosome-and-block pairs of a grouping, group-major.
pub open spec fn flat_jobs(gs: Seq<ChrGroupModel>) -> Seq<(Chromosome, BlockModel)>
    decreases gs.len(),
{
    if gs.len() == 0 {
        Seq::empty()
    } else {
        flat_jobs(gs.drop_last()) + chrom_blocks(gs.last())
    }
}

/// The chromosome-and-block pairs of a job list.
pub open spec fn job_pairs(jobs: Seq<JobVcfs2Bed>) -> Seq<(Chromosome, BlockModel)> {
    Seq::new(jobs.len(), |i: int| (jobs[i].chromosome, jobs[i].block@))
}

/// The app: convert each block of VCF files to BED format.
pub struct AppVcfs2Bed {}

impl App for AppVcfs2Bed {
    type Job = JobVcfs2Bed;

    type Inputs = Inputs;

    /// The jobs carry, group-major and in block order, exactly the blocks
    /// of the grouping of the listing's VCF files sorted by key.
    open spec fn job_list_ok(lines: Seq<Seq<char>>, jobs: Seq<JobVcfs2Bed>) -> bool {
        scan_vcfs(lines) is Some && exists|sorted: Seq<crate::data::vcfs::VcfFileModel>|
            files_sorted(sorted) && #[trigger] sorted.to_multiset() == scan_vcfs(
                lines,
            )->0.to_multiset() && (forall|k: crate::data::vcfs::VcfFileKey|
                #[trigger] crate::data::vcfs::files_with_key(sorted, k)
                    == crate::data::vcfs::files_with_key(scan_vcfs(lines)->0, k)) && job_pairs(
                jobs,
            ) == flat_jobs(group_spec(sorted))
    }

    open spec fn job_list_fails(lines: Seq<Seq<char>>) -> bool {
        scan_vcfs(lines) is None
    }

    open spec fn inputs_model(job: &JobVcfs2Bed, conf: &Conf) -> InputsModel {
        InputsModel {
            vcfs: Seq::new(
                job.block.files.deep_view().len(),
                |i: int| conf.data.vcfs_dir@ + job.block.files.deep_view()[i].name,
            ),
            out_prefix: job.name_spec(),
        }
    }

    fn create_job_list_unfiltered(lines: &Vec<String>) -> (r: Result<Vec<JobVcfs2Bed>, Error>) {
        let files = match get_vcf_files_sorted(lines) {
            Ok(v) => v,
            Err(e) => {
                return Err(e);
            },
        };
        let groups = group_vcf_files(&files);
        let ghost gv = groups.deep_view();
        proof {
            lemma_group_spec_chrom_wf(files.deep_view());
        }
        let mut jobs: Vec<JobVcfs2Bed> = Vec::new();
        let mut gi: usize = 0;
        proof {
            assert(gv.take(0) =~= Seq::<ChrGroupModel>::empty());
            assert(job_pairs(jobs@) =~= flat_jobs(gv.take(0)));
        }
        while gi < groups.len()
            invariant
                0 <= gi <= groups.len(),
                gv == groups.deep_view(),
                gv.len() == groups.len(),
                job_pairs(jobs@) == flat_jobs(gv.take(gi as int)),
                forall|k: int| 0 <= k < gv.len() ==> (#[trigger] gv[k]).chromosome.wf(),
                forall|k: int| 0 <= k < jobs.len() ==> (#[trigger] jobs@[k]).wf(),
            decreases groups.len() - gi,
        {
            let g = &groups[gi];
            let mut bi: usize = 0;
            proof {
                assert(chrom_blocks(gv[gi as int]).take(0) =~= Seq::<
                    (Chromosome, BlockModel),
                >::empty());
                assert(job_pairs(jobs@) + chrom_blocks(gv[gi as int]).take(0) =~= job_pairs(
                    jobs@,
                ));
            }
            let ghost at_group = job_pairs(jobs@);
            while bi < g.blocks.len()
                invariant
                    0 <= bi <= g.blocks.len(),
                    0 <= gi < gv.len(),
                    gv == groups.deep_view(),
                    g == &groups[gi as int],
                    g.blocks.deep_view().len() == g.blocks.len(),
                    gv[gi as int] == g.deep_view(),
                    at_group == flat_jobs(gv.take(gi as int)),
                    job_pairs(jobs@) == at_group + chrom_blocks(gv[gi as int]).take(bi as int),
                    forall|k: int| 0 <= k < gv.len() ==> (#[trigger] gv[k]).chromosome.wf(),
                    forall|k: int| 0 <= k < jobs.len() ==> (#[trigger] jobs@[k]).wf(),
                decreases g.blocks.len() - bi,
            {
                let b = &g.blocks[bi];
                let ghost pre = jobs@;
                let block = VcfFileBlock { i_block: b.i_block, files: clone_vcf_files(&b.files) };
                proof {
                    assert(block@ =~= g.blocks.deep_view()[bi as int]);
                    assert(gv[gi as int].blocks[bi as int] == g.blocks.deep_view()[bi as int]);
                }
                jobs.push(JobVcfs2Bed { chromosome: g.chromosome, block });
                proof {
                    assert(job_pairs(jobs@) =~= job_pairs(pre).push(
                        (gv[gi as int].chromosome, gv[gi as int].blocks[bi as int]),
                    ));
                    assert(chrom_blocks(gv[gi as int]).take(bi + 1) =~= chrom_blocks(
                        gv[gi as int],
                    ).take(bi as int).push((gv[gi as int].chromosome, gv[gi as int].blocks[bi as int])));
                    assert(job_pairs(jobs@) =~= at_group + chrom_blocks(gv[gi as int]).take(
                        bi + 1,
                    ));
                }
                bi = bi + 1;
            }
            proof {
                assert(chrom_blocks(gv[gi as int]).take(g.blocks.len() as int) =~= chrom_blocks(
                    gv[gi as int],
                ));
                assert(gv.take(gi + 1).drop_last() =~= gv.take(gi as int));
                assert(gv.take(gi + 1).last() == gv[gi as int]);
                assert(flat_jobs(gv.take(gi + 1)) == flat_jobs(gv.take(gi as int)) + chrom_blocks(
                    gv[gi as int],
                ));
            }
            gi = gi + 1;
        }
        proof {
            assert(gv.take(groups.len() as int) =~= gv);
            assert(Self::job_list_ok(lines.deep_view(), jobs@)) by {
                let sorted = files.deep_view();
                assert(files_sorted(sorted) && sorted.to_multiset() == scan_vcfs(
                    lines.deep_view(),
                )->0.to_multiset() && (forall|k: crate::data::vcfs::VcfFileKey|
                    #[trigger] crate::data::vcfs::files_with_key(sorted, k)
                        == crate::data::vcfs::files_with_key(
                        scan_vcfs(lines.deep_view())->0,
                        k,
                    )) && job_pairs(jobs@) == flat_jobs(group_spec(sorted)));
            }
        }
        Ok(jobs)
    }

    fn create_inputs_definition(job: &JobVcfs2Bed, conf: &Conf) -> (r: Result<Inputs, Error>) {
        let mut vcfs: Vec<String> = Vec::new();
        let ghost fv = job.block.files.deep_view();
        let mut i: usize = 0;
        proof {
            assert(vcfs.deep_view() =~= Seq::<Seq<char>>::empty());
        }
        while i < job.block.files.len()
            invariant
                0 <= i <= job.block.files.len(),
                fv == job.block.files.deep_view(),
                fv.len() == job.block.files.len(),
                vcfs.deep_view() == Seq::new(i as nat, |k: int| conf.data.vcfs_dir@ + fv[k].name),
            decreases job.block.files.len() - i,
        {
            let ghost pre = vcfs.deep_view();
            let path = String::from_str(conf.data.vcfs_dir.as_str()).concat(
                job.block.files[i].name.as_str(),
            );
            vcfs.push(path);
            proof {
                assert(vcfs.deep_view() =~= pre.push(conf.data.vcfs_dir@ + fv[i as int].name));
                assert(vcfs.deep_view() =~= Seq::new(
                    i as nat + 1,
                    |k: int| conf.data.vcfs_dir@ + fv[k].name,
                ));
            }
            i = i + 1;
        }
        let out_prefix = job.name();
        let inputs = Inputs { vcfs, out_prefix };
        proof {
            assert(inputs.deep_view() =~~= Self::inputs_model(job, conf));
        }
        Ok(inputs)
    }
}


/// Job names are collision-free: two well-formed jobs with the same name
/// have the same chromosome and block index.
pub proof fn lemma_vcfs2bed_name_injective(a: JobVcfs2Bed, b: JobVcfs2Bed)
    requires
        a.wf(),
        b.wf(),
        a.name_spec() == b.name_spec(),
    ensures
        a.chromosome == b.chromosome,
        a.block.i_block == b.block.i_block,
{
    lemma_vcfs2bed_name_parts(a);
    lemma_vcfs2bed_name_parts(b);
    let pa = crate::text::split_parts(a.name_spec());
    assert(pa[1] == seq!['c'] + chrom_str(a.chromosome) && pa[1] == seq!['c'] + chrom_str(
        b.chromosome,
    ));
    crate::data::chromosome::lemma_chrom_c_token_round_trip(a.chromosome);
    crate::data::chromosome::lemma_chrom_c_token_round_trip(b.chromosome);
    assert(pa[2].skip(1) == dec_str(a.block.i_block as nat) && pa[2].skip(1) == dec_str(
        b.block.i_block as nat,
    )) by {
        assert((seq!['b'] + dec_str(a.block.i_block as nat)).skip(1) =~= dec_str(
            a.block.i_block as nat,
        ));
        assert((seq!['b'] + dec_str(b.block.i_block as nat)).skip(1) =~= dec_str(
            b.block.i_block as nat,
        ));
    }
    crate::text::lemma_dec_str_val(a.block.i_block as nat);
    crate::text::lemma_dec_str_val(b.block.i_block as nat);
}

/// The pieces of a job name: the kind prefix, the chromosome token, and
/// the block token.
proof fn lemma_vcfs2bed_name_parts(j: JobVcfs2Bed)
    requires
        j.wf(),
    ensures
        crate::text::split_parts(j.name_spec()) == seq![
            JobVcfs2Bed::prefix_spec(),
            seq!['c'] + chrom_str(j.chromosome),
            seq!['b'] + dec_str(j.block.i_block as nat),
        ],
{
    let p = JobVcfs2Bed::prefix_spec();
    let ctok = seq!['c'] + chrom_str(j.chromosome);
    let third = seq!['b'] + dec_str(j.block.i_block as nat);
    crate::text::lemma_dec_str_val(j.block.i_block as nat);
    assert(forall|i: int| 0 <= i < p.len() ==> p[i] != '_');
    assert(forall|i: int| 0 <= i < ctok.len() ==> ctok[i] != '_') by {
        match j.chromosome {
            Chromosome::Auto(n) => {
                crate::text::lemma_dec_str_val(n as nat);
                assert(forall|i: int|
                    1 <= i < ctok.len() ==> ctok[i] == #[trigger] chrom_str(j.chromosome)[i - 1]);
            },
            Chromosome::Allo(sym) => {},
        }
    }
    assert(forall|i: int| 0 <= i < third.len() ==> third[i] != '_') by {
        assert(forall|i: int|
            1 <= i < third.len() ==> third[i] == #[trigger] dec_str(j.block.i_block as nat)[i
                - 1]);
    }
    assert(j.name_spec() =~= p + seq!['_'] + (ctok + seq!['_'] + third));
    crate::text::lemma_split_join(p, ctok + seq!['_'] + third);
    crate::text::lemma_split_join(ctok, third);
    crate::text::lemma_split_solo(third);
    assert(crate::text::split_parts(j.name_spec()) =~~= seq![p, ctok, third]) by {
        assert(crate::text::split_parts(ctok + seq!['_'] + third) == seq![ctok]
            + crate::text::split_parts(third));
    }
}

} // verus!
