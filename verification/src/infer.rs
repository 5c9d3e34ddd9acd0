//! The graphs of the path with a legacy engine: which files they are, and what they are bound to.
use crate::config::{Dims, F0Method, Model};
use crate::dsp::BINS;
use crate::gpu_pre;
use crate::plan;
use crate::plan::{put_dimension, put_port, shape2, shape3, Dimension, Elem, Port, PortValue};
use vstd::prelude::*;
use vstd::string::*;

verus! {

broadcast use vstd::string::group_string_axioms;

/// What a graph is bound to: its inputs in their order, and its one output.
pub struct RunnerPlan {
    /// The file in the model's directory.
    pub file: String,
    pub dimensions: Vec<Dimension>,
    pub inputs: Vec<Port>,
    pub output: Port,
}

/// What a [`RunnerPlan`] says.
pub struct RunnerValue {
    pub file: Seq<char>,
    pub dimensions: Seq<(Seq<char>, int)>,
    pub inputs: Seq<PortValue>,
    pub output: PortValue,
}

impl View for RunnerPlan {
    type V = RunnerValue;

    open spec fn view(&self) -> RunnerValue {
        RunnerValue {
            file: self.file@,
            dimensions: plan::dimensions(self.dimensions@),
            inputs: plan::ports(self.inputs@),
            output: self.output@,
        }
    }
}

/// What the model's own values are held in.
pub open spec fn model_elem(m: Model) -> Elem {
    if m.half {
        Elem::Half
    } else {
        Elem::Single
    }
}

/// The feature graph.
pub open spec fn contentvec_runner(m: Model, d: Dims) -> RunnerValue {
    RunnerValue {
        file: m.files.contentvec@,
        dimensions: seq![("n16"@, d.n16 as int)],
        inputs: seq![gpu_pre::port("audio"@, model_elem(m), seq![1, d.n16])],
        output: gpu_pre::port("feats"@, model_elem(m), seq![1, d.feats_frames, 768]),
    }
}

/// The pitch graph: RMVPE gives a salience for each of 360 pitches, FCPE the pitch itself.
pub open spec fn f0_runner(m: Model, d: Dims, f0: F0Method) -> RunnerValue {
    RunnerValue {
        file: match f0 {
            F0Method::Rmvpe => m.files.rmvpe@,
            F0Method::Fcpe => m.files.fcpe@,
        },
        dimensions: seq![("f0_frames"@, d.f0_frames as int)],
        inputs: seq![gpu_pre::port("mag"@, Elem::Single, seq![1, BINS, d.f0_frames])],
        output: match f0 {
            F0Method::Rmvpe => gpu_pre::port("hidden"@, Elem::Single, seq![1, d.f0_frames, 360]),
            F0Method::Fcpe => gpu_pre::port("f0"@, Elem::Single, seq![1, d.f0_frames, 1]),
        },
    }
}

/// The generator graph.
pub open spec fn generator_runner(m: Model, d: Dims) -> RunnerValue {
    let flow = (d.p_len - d.flow_head) as usize;
    let sine = (d.return_length * m.upp) as usize;
    RunnerValue {
        file: m.files.generator@,
        dimensions: seq![
            ("p_len"@, d.p_len as int),
            ("flow_len"@, d.p_len - d.flow_head),
            ("sine_len"@, d.return_length * m.upp),
            ("ret2_len"@, d.return_length2 as int),
        ],
        inputs: seq![
            gpu_pre::port("feats"@, model_elem(m), seq![1, d.p_len, 768]),
            gpu_pre::port("pitch"@, Elem::Long, seq![1, d.p_len]),
            gpu_pre::port("pitchf"@, Elem::Single, seq![1, d.p_len]),
            gpu_pre::port("rnd"@, model_elem(m), seq![1, m.inter_channels, flow]),
            gpu_pre::port("sine_noise"@, Elem::Single, seq![1, sine, 1]),
            gpu_pre::port("n_res"@, Elem::Single, seq![1, d.return_length2]),
        ],
        output: gpu_pre::port(
            "audio"@,
            Elem::Single,
            seq![1, 1, (d.return_length2 * m.upp) as usize],
        ),
    }
}

/// The three graphs.
pub struct ModelsPlan {
    pub contentvec: RunnerPlan,
    pub f0: RunnerPlan,
    pub generator: RunnerPlan,
}

fn elem_of(m: &Model) -> (r: Elem)
    ensures
        r == model_elem(*m),
{
    if m.half {
        Elem::Half
    } else {
        Elem::Single
    }
}

fn plan_generator(m: &Model, d: &Dims) -> (r: RunnerPlan)
    requires
        d.flow_head <= d.p_len,
        d.return_length * m.upp <= usize::MAX,
        d.return_length2 * m.upp <= usize::MAX,
    ensures
        r@ == generator_runner(*m, *d),
{
    let elem = elem_of(m);
    let flow: usize = d.p_len - d.flow_head;
    let sine: usize = d.return_length * m.upp;
    let mut dimensions: Vec<Dimension> = Vec::new();
    assert(plan::dimensions(dimensions@) =~= seq![]);
    put_dimension(&mut dimensions, "p_len", d.p_len);
    put_dimension(&mut dimensions, "flow_len", flow);
    put_dimension(&mut dimensions, "sine_len", sine);
    put_dimension(&mut dimensions, "ret2_len", d.return_length2);
    let mut inputs: Vec<Port> = Vec::new();
    assert(plan::ports(inputs@) =~= seq![]);
    put_port(&mut inputs, "feats", elem, shape3(1, d.p_len, 768));
    put_port(&mut inputs, "pitch", Elem::Long, shape2(1, d.p_len));
    put_port(&mut inputs, "pitchf", Elem::Single, shape2(1, d.p_len));
    put_port(&mut inputs, "rnd", elem, shape3(1, m.inter_channels, flow));
    put_port(&mut inputs, "sine_noise", Elem::Single, shape3(1, sine, 1));
    put_port(&mut inputs, "n_res", Elem::Single, shape2(1, d.return_length2));
    let output = Port {
        name: "audio".to_owned(),
        elem: Elem::Single,
        shape: shape3(1, 1, d.return_length2 * m.upp),
    };
    let r = RunnerPlan { file: m.files.generator.clone(), dimensions, inputs, output };
    proof {
        let want = generator_runner(*m, *d);
        assert(r@.dimensions =~= want.dimensions);
        assert(r@.inputs =~= want.inputs);
        assert(r@.output == want.output);
    }
    r
}

fn plan_one(file: &String, name: &str, size: usize, input: Port, output: Port) -> (r: RunnerPlan)
    ensures
        r@ == (RunnerValue {
            file: file@,
            dimensions: seq![(name@, size as int)],
            inputs: seq![input@],
            output: output@,
        }),
{
    let mut dimensions: Vec<Dimension> = Vec::new();
    assert(plan::dimensions(dimensions@) =~= seq![]);
    put_dimension(&mut dimensions, name, size);
    let mut inputs: Vec<Port> = Vec::new();
    inputs.push(input);
    let r = RunnerPlan { file: file.clone(), dimensions, inputs, output };
    proof {
        assert(r@.dimensions =~= seq![(name@, size as int)]);
        assert(r@.inputs =~= seq![input@]);
    }
    r
}

impl ModelsPlan {
    /// What the graphs of a model are bound to.
    pub fn load(m: &Model, d: &Dims, f0: F0Method) -> (r: ModelsPlan)
        requires
            d.flow_head <= d.p_len,
            d.return_length * m.upp <= usize::MAX,
            d.return_length2 * m.upp <= usize::MAX,
        ensures
            r.contentvec@ == contentvec_runner(*m, *d),
            r.f0@ == f0_runner(*m, *d, f0),
            r.generator@ == generator_runner(*m, *d),
    {
        let elem = elem_of(m);
        let contentvec = plan_one(
            &m.files.contentvec,
            "n16",
            d.n16,
            Port { name: "audio".to_owned(), elem, shape: shape2(1, d.n16) },
            Port { name: "feats".to_owned(), elem, shape: shape3(1, d.feats_frames, 768) },
        );
        let mag = Port {
            name: "mag".to_owned(),
            elem: Elem::Single,
            shape: shape3(1, BINS, d.f0_frames),
        };
        let pitch = match f0 {
            F0Method::Rmvpe => plan_one(
                &m.files.rmvpe,
                "f0_frames",
                d.f0_frames,
                mag,
                Port {
                    name: "hidden".to_owned(),
                    elem: Elem::Single,
                    shape: shape3(1, d.f0_frames, 360),
                },
            ),
            F0Method::Fcpe => plan_one(
                &m.files.fcpe,
                "f0_frames",
                d.f0_frames,
                mag,
                Port {
                    name: "f0".to_owned(),
                    elem: Elem::Single,
                    shape: shape3(1, d.f0_frames, 1),
                },
            ),
        };
        ModelsPlan { contentvec, f0: pitch, generator: plan_generator(m, d) }
    }
}

/// What the graphs hand on fits together: the features of the context at 16 kHz go in rows of 768 to the
/// generator, one for each hop of the context, with a pitch for each; what is skipped of the flow gets no
/// noise, every returned sample gets its own, and a hop of the model comes out for every hop that the formant
/// shift makes of the returned ones.
pub proof fn law_graphs_fit_together(m: Model, d: Dims, f0: F0Method)
    requires
        d.flow_head <= d.p_len,
        d.return_length * m.upp <= usize::MAX,
        d.return_length2 * m.upp <= usize::MAX,
    ensures
        ({
            let elem = if m.half { Elem::Half } else { Elem::Single };
            let c = contentvec_runner(m, d);
            let p = f0_runner(m, d, f0);
            let g = generator_runner(m, d);
            &&& c.file == m.files.contentvec@ && g.file == m.files.generator@
            &&& f0 == F0Method::Rmvpe ==> p.file == m.files.rmvpe@
            &&& f0 == F0Method::Fcpe ==> p.file == m.files.fcpe@
            &&& c.inputs.len() == 1 && c.inputs[0].name == "audio"@ && c.inputs[0].elem == elem
                && c.inputs[0].shape == seq![1usize, d.n16]
            &&& c.output.name == "feats"@ && c.output.elem == elem && c.output.shape == seq![
                1usize,
                d.feats_frames,
                768usize,
            ]
            &&& p.inputs.len() == 1 && p.inputs[0].name == "mag"@ && p.inputs[0].elem == Elem::Single
                && p.inputs[0].shape == seq![1usize, 513usize, d.f0_frames]
            &&& p.output.elem == Elem::Single && p.output.shape == seq![
                1usize,
                d.f0_frames,
                if f0 == F0Method::Rmvpe { 360usize } else { 1usize },
            ]
            &&& p.output.name == if f0 == F0Method::Rmvpe { "hidden"@ } else { "f0"@ }
            &&& g.inputs.len() == 6
            &&& g.inputs[0].name == "feats"@ && g.inputs[0].elem == elem && g.inputs[0].shape == seq![
                1usize,
                d.p_len,
                768usize,
            ]
            &&& g.inputs[1].name == "pitch"@ && g.inputs[1].elem == Elem::Long && g.inputs[1].shape
                == seq![1usize, d.p_len]
            &&& g.inputs[2].name == "pitchf"@ && g.inputs[2].elem == Elem::Single && g.inputs[2].shape
                == seq![1usize, d.p_len]
            &&& g.inputs[3].name == "rnd"@ && g.inputs[3].elem == elem && g.inputs[3].shape.len() == 3
                && g.inputs[3].shape[1] == m.inter_channels && g.inputs[3].shape[2] + d.flow_head
                == d.p_len
            &&& g.inputs[4].name == "sine_noise"@ && g.inputs[4].elem == Elem::Single
                && g.inputs[4].shape[1] == d.return_length * m.upp
            &&& g.inputs[5].name == "n_res"@ && g.inputs[5].elem == Elem::Single && g.inputs[5].shape
                == seq![1usize, d.return_length2]
            &&& g.output.name == "audio"@ && g.output.elem == Elem::Single && g.output.shape.len() == 3
                && g.output.shape[2] == d.return_length2 * m.upp
        }),
{
    assert(0 <= d.return_length * m.upp) by (nonlinear_arith);
    assert(0 <= d.return_length2 * m.upp) by (nonlinear_arith);
}

} // verus!
