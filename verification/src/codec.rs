use vstd::prelude::*;
use crate::error::ModelError;
use crate::numeral::{is_numeral, is_numeral_text, lemma_numeral_bytes};
use crate::text::{
    append_bytes, bytes_eq, free_of, join_bytes, lemma_lines_of_text, lines_of, read_lines, text_of,
    views,
};

verus! {

/// The line `-- Efficiency --`, which announces the saved metric.
pub open spec fn efficiency_header() -> Seq<u8> {
    seq![
        45u8, 45u8, 32u8, 69u8, 102u8, 102u8, 105u8, 99u8, 105u8, 101u8, 110u8, 99u8, 121u8, 32u8,
        45u8, 45u8,
    ]
}

/// The line `-- Weights --`, which announces the weights.
pub open spec fn weights_header() -> Seq<u8> {
    seq![45u8, 45u8, 32u8, 87u8, 101u8, 105u8, 103u8, 104u8, 116u8, 115u8, 32u8, 45u8, 45u8]
}

/// The line `-- Centers --`, which announces the centers.
pub open spec fn centers_header() -> Seq<u8> {
    seq![45u8, 45u8, 32u8, 67u8, 101u8, 110u8, 116u8, 101u8, 114u8, 115u8, 32u8, 45u8, 45u8]
}

/// A token between braces, as a weight line holds it.
pub open spec fn braced(token: Seq<u8>) -> Seq<u8> {
    seq![123u8] + token + seq![125u8]
}

/// What stands between the first and the last byte of `line`.
pub open spec fn unbraced(line: Seq<u8>) -> Seq<u8> {
    line.subrange(1, line.len() - 1)
}

/// Whether `line` is a numeral between braces.
pub open spec fn is_braced_numeral(line: Seq<u8>) -> bool {
    line.len() >= 2 && line[0] == 123u8 && line[line.len() - 1] == 125u8 && is_numeral(
        unbraced(line),
    )
}

/// Whether every token of `tokens` is a numeral.
pub open spec fn all_numerals(tokens: Seq<Seq<u8>>) -> bool {
    forall|i: int| 0 <= i < tokens.len() ==> is_numeral(#[trigger] tokens[i])
}

/// The lines that hold a linear model: the metric under its header, then the
/// weights under theirs, one to a line and each between braces.
pub open spec fn linear_lines(metric: Seq<u8>, weights: Seq<Seq<u8>>) -> Seq<Seq<u8>> {
    seq![efficiency_header(), metric, weights_header()] + Seq::new(
        weights.len(),
        |i: int| braced(weights[i]),
    )
}

/// Whether `lines` hold a linear model: both headers in place, a numeral for the
/// metric, and after the weights header at least one weight and nothing but
/// weights.
pub open spec fn linear_format(lines: Seq<Seq<u8>>) -> bool {
    &&& lines.len() >= 4
    &&& lines[0] == efficiency_header()
    &&& is_numeral(lines[1])
    &&& lines[2] == weights_header()
    &&& forall|i: int| 3 <= i < lines.len() ==> is_braced_numeral(#[trigger] lines[i])
}

/// The tokens of the braced lines of `lines` from line `from` on.
pub open spec fn braced_tokens(lines: Seq<Seq<u8>>, from: int) -> Seq<Seq<u8>> {
    Seq::new((lines.len() - from) as nat, |i: int| unbraced(lines[from + i]))
}

/// The parameters of a linear model as a file holds them: each number in its
/// written form.
pub struct LinearParameters {
    /// The metric that the model had reached when it was saved.
    pub metric: Vec<u8>,
    /// The bias, then one weight for each feature.
    pub weights: Vec<Vec<u8>>,
}

impl LinearParameters {
    /// The metric is a numeral, and so is each weight; the bias is there.
    pub open spec fn wf(&self) -> bool {
        &&& is_numeral(self.metric@)
        &&& self.weights@.len() >= 1
        &&& all_numerals(views(self.weights@))
    }

    /// The number of features that the model takes.
    pub open spec fn feature_dim(&self) -> int {
        self.weights@.len() - 1
    }
}

/// Builds the line `-- Efficiency --`.
pub(crate) fn efficiency_header_bytes() -> (line: Vec<u8>)
    ensures
        line@ == efficiency_header(),
{
    let line: Vec<u8> = vec![
        45u8, 45u8, 32u8, 69u8, 102u8, 102u8, 105u8, 99u8, 105u8, 101u8, 110u8, 99u8, 121u8, 32u8,
        45u8, 45u8,
    ];
    assert(line@ =~= efficiency_header());
    line
}

/// Builds the line `-- Weights --`.
pub(crate) fn weights_header_bytes() -> (line: Vec<u8>)
    ensures
        line@ == weights_header(),
{
    let line: Vec<u8> = vec![
        45u8, 45u8, 32u8, 87u8, 101u8, 105u8, 103u8, 104u8, 116u8, 115u8, 32u8, 45u8, 45u8,
    ];
    assert(line@ =~= weights_header());
    line
}

/// Builds the line `-- Centers --`.
pub(crate) fn centers_header_bytes() -> (line: Vec<u8>)
    ensures
        line@ == centers_header(),
{
    let line: Vec<u8> = vec![
        45u8, 45u8, 32u8, 67u8, 101u8, 110u8, 116u8, 101u8, 114u8, 115u8, 32u8, 45u8, 45u8,
    ];
    assert(line@ =~= centers_header());
    line
}

/// Copies the bytes of `line` from `from` up to `to`.
pub(crate) fn slice_bytes(line: &[u8], from: usize, to: usize) -> (part: Vec<u8>)
    requires
        from <= to <= line@.len(),
    ensures
        part@ == line@.subrange(from as int, to as int),
{
    let mut part: Vec<u8> = Vec::new();
    let mut i: usize = from;
    while i < to
        invariant
            from <= i <= to <= line@.len(),
            part@ == line@.subrange(from as int, i as int),
        decreases to - i,
    {
        part.push(line[i]);
        i += 1;
        proof {
            assert(part@ =~= line@.subrange(from as int, i as int));
        }
    }
    part
}

/// Puts `token` between braces.
pub(crate) fn brace(token: &[u8]) -> (line: Vec<u8>)
    ensures
        line@ == braced(token@),
{
    let mut line: Vec<u8> = Vec::new();
    line.push(123u8);
    append_bytes(&mut line, token);
    line.push(125u8);
    proof {
        assert(line@ =~= braced(token@));
    }
    line
}

/// Reads the weights that stand in `lines` from line `from` on: all of them, or
/// nothing where a line is no numeral between braces.
pub(crate) fn read_braced(lines: &Vec<Vec<u8>>, from: usize) -> (tokens: Option<Vec<Vec<u8>>>)
    requires
        from <= lines@.len(),
    ensures
        tokens.is_some() == (forall|i: int|
            from <= i < lines@.len() ==> is_braced_numeral(#[trigger] views(lines@)[i])),
        tokens.is_some() ==> views(tokens.unwrap()@) == braced_tokens(views(lines@), from as int),
{
    let mut tokens: Vec<Vec<u8>> = Vec::new();
    let mut i: usize = from;
    while i < lines.len()
        invariant
            from <= i <= lines@.len(),
            tokens@.len() == i - from,
            forall|j: int| from <= j < i ==> is_braced_numeral(#[trigger] views(lines@)[j]),
            forall|j: int|
                0 <= j < i - from ==> (#[trigger] tokens@[j])@ == unbraced(lines@[from + j]@),
        decreases lines@.len() - i,
    {
        let line = lines[i].as_slice();
        let n: usize = line.len();
        assert(views(lines@)[i as int] == line@);
        if n < 2 || line[0] != 123u8 || line[n - 1] != 125u8 {
            return None;
        }
        let token = slice_bytes(line, 1, n - 1);
        if !is_numeral_text(token.as_slice()) {
            return None;
        }
        tokens.push(token);
        i += 1;
    }
    proof {
        assert(views(tokens@) =~= braced_tokens(views(lines@), from as int));
    }
    Some(tokens)
}

/// Reads a linear model from the text of its file.
///
/// The text is taken where its lines are those of a linear model, and the
/// parameters are then the tokens that the lines hold. Any other text is
/// a corrupt parameter file.
pub fn decode_linear(text: &[u8]) -> (r: Result<LinearParameters, ModelError>)
    ensures
        match r {
            Ok(p) => {
                &&& linear_format(lines_of(text@))
                &&& p.metric@ == lines_of(text@)[1]
                &&& views(p.weights@) == braced_tokens(lines_of(text@), 3)
                &&& p.wf()
            },
            Err(e) => e == ModelError::CorruptParameterFile && !linear_format(lines_of(text@)),
        },
{
    let lines = read_lines(text);
    if lines.len() < 4 {
        return Err(ModelError::CorruptParameterFile);
    }
    let first = efficiency_header_bytes();
    let third = weights_header_bytes();
    assert(views(lines@)[0] == lines@[0]@);
    assert(views(lines@)[1] == lines@[1]@);
    assert(views(lines@)[2] == lines@[2]@);
    if !bytes_eq(lines[0].as_slice(), first.as_slice()) {
        return Err(ModelError::CorruptParameterFile);
    }
    if !is_numeral_text(lines[1].as_slice()) {
        return Err(ModelError::CorruptParameterFile);
    }
    if !bytes_eq(lines[2].as_slice(), third.as_slice()) {
        return Err(ModelError::CorruptParameterFile);
    }
    match read_braced(&lines, 3) {
        None => Err(ModelError::CorruptParameterFile),
        Some(weights) => {
            let metric = slice_bytes(lines[1].as_slice(), 0, lines[1].len());
            proof {
                assert(lines@[1]@.subrange(0, lines@[1]@.len() as int) =~= lines@[1]@);
                let ls = views(lines@);
                assert(views(weights@).len() == braced_tokens(ls, 3).len());
                assert forall|i: int| 0 <= i < views(weights@).len() implies is_numeral(
                    #[trigger] views(weights@)[i],
                ) by {
                    assert(is_braced_numeral(ls[i + 3]));
                    assert(views(weights@)[i] == braced_tokens(ls, 3)[i]);
                }
            }
            Ok(LinearParameters { metric, weights })
        },
    }
}

/// Writes `lines` as a text, each line closed by a line feed.
pub(crate) fn write_lines(lines: Vec<Vec<u8>>) -> (text: Vec<u8>)
    ensures
        text@ == text_of(views(lines@)),
{
    let mut closed = lines;
    closed.push(Vec::new());
    proof {
        assert(views(closed@) =~= views(lines@).push(Seq::<u8>::empty()));
    }
    join_bytes(&closed, 10u8)
}

/// Puts each of `tokens` between braces and appends the lines to `lines`.
pub(crate) fn push_braced(lines: &mut Vec<Vec<u8>>, tokens: &Vec<Vec<u8>>)
    ensures
        views(final(lines)@) == views(old(lines)@) + Seq::new(
            tokens@.len(),
            |i: int| braced(tokens@[i]@),
        ),
{
    let mut i: usize = 0;
    while i < tokens.len()
        invariant
            i <= tokens@.len(),
            views(lines@) == views(old(lines)@) + Seq::new(i as nat, |j: int| braced(tokens@[j]@)),
        decreases tokens@.len() - i,
    {
        let ghost before = views(lines@);
        let line = brace(tokens[i].as_slice());
        lines.push(line);
        i += 1;
        proof {
            assert(views(lines@) =~= before.push(braced(tokens@[i - 1]@)));
            assert(views(lines@) =~= views(old(lines)@) + Seq::new(
                i as nat,
                |j: int| braced(tokens@[j]@),
            ));
        }
    }
}

/// Writes a linear model as the text of its file.
pub fn encode_linear(p: &LinearParameters) -> (text: Vec<u8>)
    ensures
        text@ == text_of(linear_lines(p.metric@, views(p.weights@))),
{
    let mut lines: Vec<Vec<u8>> = Vec::new();
    lines.push(efficiency_header_bytes());
    lines.push(slice_bytes(p.metric.as_slice(), 0, p.metric.len()));
    lines.push(weights_header_bytes());
    proof {
        assert(p.metric@.subrange(0, p.metric@.len() as int) =~= p.metric@);
        assert(views(lines@) =~= seq![efficiency_header(), p.metric@, weights_header()]);
    }
    push_braced(&mut lines, &p.weights);
    proof {
        assert(views(lines@) =~= linear_lines(p.metric@, views(p.weights@)));
    }
    write_lines(lines)
}

/// A numeral holds no line feed, comma, brace or blank.
pub proof fn lemma_numeral_plain(token: Seq<u8>)
    requires
        is_numeral(token),
    ensures
        token.len() > 0,
        free_of(token, 10u8),
        free_of(token, 44u8),
        free_of(token, 32u8),
        free_of(token, 123u8),
        free_of(token, 125u8),
{
    lemma_numeral_bytes(token);
}

/// A numeral between braces is read back as that numeral.
pub proof fn lemma_braced_numeral(token: Seq<u8>)
    requires
        is_numeral(token),
    ensures
        is_braced_numeral(braced(token)),
        unbraced(braced(token)) == token,
        free_of(braced(token), 10u8),
        braced(token) != weights_header(),
{
    lemma_numeral_plain(token);
    let line = braced(token);
    assert(unbraced(line) =~= token);
    assert forall|i: int| 0 <= i < line.len() implies line[i] != 10u8 by {
        if 0 < i < line.len() - 1 {
            assert(line[i] == token[i - 1]);
        }
    }
    assert(line[0] == 123u8);
    assert(weights_header()[0] == 45u8);
}

/// A linear model that is written and then read comes back as it was: the same
/// metric and the same weights, in the same order.
pub proof fn lemma_linear_round_trip(metric: Seq<u8>, weights: Seq<Seq<u8>>)
    requires
        is_numeral(metric),
        weights.len() >= 1,
        all_numerals(weights),
    ensures
        ({
            let lines = lines_of(text_of(linear_lines(metric, weights)));
            &&& linear_format(lines)
            &&& lines[1] == metric
            &&& braced_tokens(lines, 3) == weights
        }),
{
    let written = linear_lines(metric, weights);
    lemma_numeral_plain(metric);
    assert forall|i: int| 0 <= i < written.len() implies free_of(#[trigger] written[i], 10u8) by {
        if i >= 3 {
            assert(written[i] == braced(weights[i - 3]));
            lemma_braced_numeral(weights[i - 3]);
        }
    }
    lemma_lines_of_text(written);
    assert forall|i: int| 3 <= i < written.len() implies is_braced_numeral(
        #[trigger] written[i],
    ) by {
        assert(written[i] == braced(weights[i - 3]));
        lemma_braced_numeral(weights[i - 3]);
    }
    assert forall|i: int| 0 <= i < weights.len() implies braced_tokens(written, 3)[i]
        == weights[i] by {
        assert(written[3 + i] == braced(weights[i]));
        lemma_braced_numeral(weights[i]);
    }
    assert(braced_tokens(written, 3) =~= weights);
}

/// A text in which no line is the weights header holds no linear model.
pub proof fn lemma_linear_needs_weights_header(text: Seq<u8>)
    requires
        forall|i: int|
            0 <= i < lines_of(text).len() ==> #[trigger] lines_of(text)[i] != weights_header(),
    ensures
        !linear_format(lines_of(text)),
{
    let lines = lines_of(text);
    if lines.len() >= 4 {
        assert(lines[2] != weights_header());
    }
}

} // verus!
