use vstd::prelude::*;
use crate::codec::{
    all_numerals, braced, braced_tokens, centers_header, centers_header_bytes, efficiency_header,
    efficiency_header_bytes, is_braced_numeral, lemma_braced_numeral, lemma_numeral_plain,
    push_braced, read_braced, slice_bytes, weights_header, weights_header_bytes, write_lines,
};
use crate::error::ModelError;
use crate::numeral::{is_numeral, is_numeral_text};
use crate::text::{
    bytes_eq, free_of, join, join_bytes, lemma_join_free_of, lemma_lines_of_text,
    lemma_split_join, lines_of, read_lines, split, split_bytes, text_of, views,
};

verus! {

/// What a list of centers holds, center by center and token by token.
pub open spec fn grid(centers: Seq<Vec<Vec<u8>>>) -> Seq<Seq<Seq<u8>>> {
    Seq::new(centers.len(), |i: int| views(centers[i]@))
}

/// The first line from `from` on that is `header`, or the number of lines where
/// there is none.
pub open spec fn header_at(lines: Seq<Seq<u8>>, from: int, header: Seq<u8>) -> int
    decreases lines.len() - from,
{
    if 0 <= from < lines.len() && lines[from] != header {
        header_at(lines, from + 1, header)
    } else {
        from
    }
}

/// The lines that hold a radial-basis network: the metric under its header,
/// the centers under theirs, one to a line with commas between the
/// coordinates, then the weights under theirs, each between braces.
pub open spec fn rbf_lines(
    metric: Seq<u8>,
    centers: Seq<Seq<Seq<u8>>>,
    weights: Seq<Seq<u8>>,
) -> Seq<Seq<u8>> {
    seq![efficiency_header(), metric, centers_header()] + Seq::new(
        centers.len(),
        |i: int| join(centers[i], 44u8),
    ) + seq![weights_header()] + Seq::new(weights.len(), |i: int| braced(weights[i]))
}

/// Whether `line` holds a center of `width` coordinates.
pub open spec fn is_center_line(line: Seq<u8>, width: int) -> bool {
    all_numerals(split(line, 44u8)) && split(line, 44u8).len() == width
}

/// Whether `lines` hold a radial-basis network: the three headers in their
/// places, a numeral for the metric, centers of one width, and one weight more
/// than there are centers.
pub open spec fn rbf_format(lines: Seq<Seq<u8>>) -> bool {
    let w = header_at(lines, 3, weights_header());
    &&& lines.len() >= 5
    &&& lines[0] == efficiency_header()
    &&& is_numeral(lines[1])
    &&& lines[2] == centers_header()
    &&& w < lines.len()
    &&& forall|i: int|
        3 <= i < w ==> is_center_line(#[trigger] lines[i], split(lines[3], 44u8).len() as int)
    &&& forall|i: int| w < i < lines.len() ==> is_braced_numeral(#[trigger] lines[i])
    &&& lines.len() - w - 1 == w - 3 + 1
}

/// The centers that `lines` hold.
pub open spec fn rbf_centers(lines: Seq<Seq<u8>>) -> Seq<Seq<Seq<u8>>> {
    let w = header_at(lines, 3, weights_header());
    Seq::new((w - 3) as nat, |i: int| split(lines[3 + i], 44u8))
}

/// The weights that `lines` hold.
pub open spec fn rbf_weights(lines: Seq<Seq<u8>>) -> Seq<Seq<u8>> {
    braced_tokens(lines, header_at(lines, 3, weights_header()) + 1)
}

/// Whether the centers are numerals throughout and of one width.
pub open spec fn centers_regular(centers: Seq<Seq<Seq<u8>>>) -> bool {
    forall|i: int|
        0 <= i < centers.len() ==> all_numerals(#[trigger] centers[i]) && centers[i].len()
            == centers[0].len() && centers[i].len() >= 1
}

/// The parameters of a radial-basis network as a file holds them: each number
/// in its written form.
pub struct RbfParameters {
    /// The metric that the model had reached when it was saved.
    pub metric: Vec<u8>,
    /// The centers, each with one coordinate for each input.
    pub centers: Vec<Vec<Vec<u8>>>,
    /// The bias, then one weight for each center.
    pub weights: Vec<Vec<u8>>,
}

impl RbfParameters {
    /// Every number is a numeral, the centers have one width, and there is one
    /// weight for each center beside the bias.
    pub open spec fn wf(&self) -> bool {
        &&& is_numeral(self.metric@)
        &&& self.weights@.len() == self.centers@.len() + 1
        &&& all_numerals(views(self.weights@))
        &&& centers_regular(grid(self.centers@))
    }
}

/// `header_at` is the one line before which no header stands and which is the
/// header, or the end.
pub proof fn lemma_header_at(lines: Seq<Seq<u8>>, from: int, header: Seq<u8>, k: int)
    requires
        0 <= from <= k <= lines.len(),
        forall|i: int| from <= i < k ==> lines[i] != header,
        k < lines.len() ==> lines[k] == header,
    ensures
        header_at(lines, from, header) == k,
    decreases k - from,
{
    if from < k {
        lemma_header_at(lines, from + 1, header, k);
    }
}

/// Whether every token of `tokens` is a numeral.
fn all_numeral_tokens(tokens: &Vec<Vec<u8>>) -> (ok: bool)
    ensures
        ok == all_numerals(views(tokens@)),
{
    let mut i: usize = 0;
    while i < tokens.len()
        invariant
            i <= tokens@.len(),
            forall|j: int| 0 <= j < i ==> is_numeral(#[trigger] views(tokens@)[j]),
        decreases tokens@.len() - i,
    {
        assert(views(tokens@)[i as int] == tokens@[i as int]@);
        if !is_numeral_text(tokens[i].as_slice()) {
            return false;
        }
        i += 1;
    }
    true
}

/// Reads a radial-basis network from the text of its file.
///
/// The text is taken where its lines are those of a network, and the
/// parameters are then the tokens that the lines hold. Any other text is
/// a corrupt parameter file.
pub fn decode_rbf(text: &[u8]) -> (r: Result<RbfParameters, ModelError>)
    ensures
        match r {
            Ok(p) => {
                &&& rbf_format(lines_of(text@))
                &&& p.metric@ == lines_of(text@)[1]
                &&& grid(p.centers@) == rbf_centers(lines_of(text@))
                &&& views(p.weights@) == rbf_weights(lines_of(text@))
                &&& p.wf()
            },
            Err(e) => e == ModelError::CorruptParameterFile && !rbf_format(lines_of(text@)),
        },
{
    let lines = read_lines(text);
    let ghost ls = views(lines@);
    let n: usize = lines.len();
    if n < 5 {
        return Err(ModelError::CorruptParameterFile);
    }
    let first = efficiency_header_bytes();
    let third = centers_header_bytes();
    let mark = weights_header_bytes();
    assert(ls[0] == lines@[0]@);
    assert(ls[1] == lines@[1]@);
    assert(ls[2] == lines@[2]@);
    if !bytes_eq(lines[0].as_slice(), first.as_slice()) {
        return Err(ModelError::CorruptParameterFile);
    }
    if !is_numeral_text(lines[1].as_slice()) {
        return Err(ModelError::CorruptParameterFile);
    }
    if !bytes_eq(lines[2].as_slice(), third.as_slice()) {
        return Err(ModelError::CorruptParameterFile);
    }
    let mut w: usize = 3;
    while w < n && !bytes_eq(lines[w].as_slice(), mark.as_slice())
        invariant
            3 <= w <= n,
            n == lines@.len(),
            ls == views(lines@),
            mark@ == weights_header(),
            header_at(ls, 3, weights_header()) == header_at(ls, w as int, weights_header()),
        decreases n - w,
    {
        assert(ls[w as int] == lines@[w as int]@);
        w += 1;
    }
    proof {
        if w < n {
            assert(ls[w as int] == lines@[w as int]@);
        }
        assert(header_at(ls, 3, weights_header()) == w);
    }
    if w >= n {
        return Err(ModelError::CorruptParameterFile);
    }
    let mut centers: Vec<Vec<Vec<u8>>> = Vec::new();
    let mut width: usize = 0;
    let mut i: usize = 3;
    while i < w
        invariant
            3 <= i <= w < n,
            n == lines@.len(),
            ls == views(lines@),
            centers@.len() == i - 3,
            ls == lines_of(text@),
            header_at(ls, 3, weights_header()) == w,
            i > 3 ==> width == split(ls[3], 44u8).len(),
            forall|j: int|
                3 <= j < i ==> is_center_line(#[trigger] ls[j], split(ls[3], 44u8).len() as int),
            forall|j: int| 0 <= j < i - 3 ==> views((#[trigger] centers@[j])@) == split(
                ls[3 + j],
                44u8,
            ),
        decreases w - i,
    {
        assert(ls[i as int] == lines@[i as int]@);
        let tokens = split_bytes(lines[i].as_slice(), 44u8);
        assert(views(tokens@).len() == tokens@.len());
        if i == 3 {
            width = tokens.len();
        }
        if !all_numeral_tokens(&tokens) || tokens.len() != width {
            return Err(ModelError::CorruptParameterFile);
        }
        centers.push(tokens);
        i += 1;
    }
    let weights = match read_braced(&lines, w + 1) {
        None => {
            return Err(ModelError::CorruptParameterFile);
        },
        Some(weights) => weights,
    };
    assert(views(weights@).len() == weights@.len());
    assert(braced_tokens(ls, w + 1).len() == n - w - 1);
    if weights.len() != centers.len() + 1 {
        return Err(ModelError::CorruptParameterFile);
    }
    let metric = slice_bytes(lines[1].as_slice(), 0, lines[1].len());
    proof {
        assert(lines@[1]@.subrange(0, lines@[1]@.len() as int) =~= lines@[1]@);
        assert(grid(centers@) =~= rbf_centers(ls));
        assert forall|j: int| 0 <= j < views(weights@).len() implies is_numeral(
            #[trigger] views(weights@)[j],
        ) by {
            assert(is_braced_numeral(ls[w + 1 + j]));
            assert(views(weights@)[j] == braced_tokens(ls, w + 1)[j]);
        }
        let g = grid(centers@);
        assert forall|j: int| 0 <= j < g.len() implies all_numerals(#[trigger] g[j]) && g[j].len()
            == g[0].len() && g[j].len() >= 1 by {
            assert(is_center_line(ls[3 + j], split(ls[3], 44u8).len() as int));
            assert(is_center_line(ls[3], split(ls[3], 44u8).len() as int));
            assert(g[j] == split(ls[3 + j], 44u8));
            assert(g[0] == split(ls[3], 44u8));
        }
    }
    Ok(RbfParameters { metric, centers, weights })
}

/// Writes a radial-basis network as the text of its file.
pub fn encode_rbf(p: &RbfParameters) -> (text: Vec<u8>)
    ensures
        text@ == text_of(rbf_lines(p.metric@, grid(p.centers@), views(p.weights@))),
{
    let mut lines: Vec<Vec<u8>> = Vec::new();
    lines.push(efficiency_header_bytes());
    lines.push(slice_bytes(p.metric.as_slice(), 0, p.metric.len()));
    lines.push(centers_header_bytes());
    proof {
        assert(p.metric@.subrange(0, p.metric@.len() as int) =~= p.metric@);
        assert(views(lines@) =~= seq![efficiency_header(), p.metric@, centers_header()]);
    }
    let ghost head = views(lines@);
    let mut i: usize = 0;
    while i < p.centers.len()
        invariant
            i <= p.centers@.len(),
            views(lines@) == head + Seq::new(
                i as nat,
                |j: int| join(grid(p.centers@)[j], 44u8),
            ),
        decreases p.centers@.len() - i,
    {
        let ghost before = views(lines@);
        let line = join_bytes(&p.centers[i], 44u8);
        lines.push(line);
        i += 1;
        proof {
            assert(grid(p.centers@)[i - 1] == views(p.centers@[i - 1]@));
            assert(views(lines@) =~= before.push(join(grid(p.centers@)[i - 1], 44u8)));
            assert(views(lines@) =~= head + Seq::new(
                i as nat,
                |j: int| join(grid(p.centers@)[j], 44u8),
            ));
        }
    }
    let ghost body = views(lines@);
    lines.push(weights_header_bytes());
    proof {
        assert(views(lines@) =~= body + seq![weights_header()]);
    }
    push_braced(&mut lines, &p.weights);
    proof {
        assert(views(lines@) =~= rbf_lines(p.metric@, grid(p.centers@), views(p.weights@)));
    }
    write_lines(lines)
}

/// A center line holds no line feed, is not the weights header, and is cut
/// back into the coordinates it was written from.
pub proof fn lemma_center_line(tokens: Seq<Seq<u8>>)
    requires
        tokens.len() >= 1,
        all_numerals(tokens),
    ensures
        free_of(join(tokens, 44u8), 10u8),
        join(tokens, 44u8) != weights_header(),
        split(join(tokens, 44u8), 44u8) == tokens,
{
    assert forall|i: int| 0 <= i < tokens.len() implies free_of(#[trigger] tokens[i], 10u8)
        && free_of(tokens[i], 32u8) && free_of(tokens[i], 44u8) by {
        lemma_numeral_plain(tokens[i]);
    }
    lemma_join_free_of(tokens, 44u8, 10u8);
    lemma_join_free_of(tokens, 44u8, 32u8);
    lemma_split_join(tokens, 44u8);
    assert(weights_header()[2] == 32u8);
}

/// A radial-basis network that is written and then read comes back as it was:
/// the same metric, the same centers and the same weights, in the same order.
pub proof fn lemma_rbf_round_trip(
    metric: Seq<u8>,
    centers: Seq<Seq<Seq<u8>>>,
    weights: Seq<Seq<u8>>,
)
    requires
        is_numeral(metric),
        weights.len() == centers.len() + 1,
        all_numerals(weights),
        centers_regular(centers),
    ensures
        ({
            let lines = lines_of(text_of(rbf_lines(metric, centers, weights)));
            &&& rbf_format(lines)
            &&& lines[1] == metric
            &&& rbf_centers(lines) == centers
            &&& rbf_weights(lines) == weights
        }),
{
    let written = rbf_lines(metric, centers, weights);
    let c = centers.len() as int;
    let w = 3 + c;
    lemma_numeral_plain(metric);
    assert(written.len() == w + 1 + weights.len());
    assert(written[w] == weights_header());
    assert forall|i: int| 3 <= i < w implies #[trigger] written[i] == join(centers[i - 3], 44u8)
        && written[i] != weights_header() && free_of(written[i], 10u8) && split(
        written[i],
        44u8,
    ) == centers[i - 3] by {
        lemma_center_line(centers[i - 3]);
    }
    assert forall|i: int| w < i < written.len() implies #[trigger] written[i] == braced(
        weights[i - w - 1],
    ) && is_braced_numeral(written[i]) && free_of(written[i], 10u8) by {
        lemma_braced_numeral(weights[i - w - 1]);
    }
    assert forall|i: int| 0 <= i < written.len() implies free_of(#[trigger] written[i], 10u8) by {
        if 3 <= i < w {
        } else if i > w {
        }
    }
    lemma_lines_of_text(written);
    lemma_header_at(written, 3, weights_header(), w);
    assert forall|i: int| 3 <= i < w implies is_center_line(
        #[trigger] written[i],
        split(written[3], 44u8).len() as int,
    ) by {
        assert(written[3] == join(centers[0], 44u8));
    }
    assert(rbf_centers(written) =~= centers);
    assert forall|i: int| 0 <= i < weights.len() implies braced_tokens(written, w + 1)[i]
        == weights[i] by {
        assert(written[w + 1 + i] == braced(weights[i]));
        lemma_braced_numeral(weights[i]);
    }
    assert(rbf_weights(written) =~= weights);
}

/// A text in which no line is the weights header holds no radial-basis network.
pub proof fn lemma_rbf_needs_weights_header(text: Seq<u8>)
    requires
        forall|i: int|
            0 <= i < lines_of(text).len() ==> #[trigger] lines_of(text)[i] != weights_header(),
    ensures
        !rbf_format(lines_of(text)),
{
    let lines = lines_of(text);
    if lines.len() >= 5 {
        lemma_header_at(lines, 3, weights_header(), lines.len() as int);
    }
}

} // verus!
