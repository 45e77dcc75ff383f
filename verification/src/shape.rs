//! The layer sizes of the two-layer network, and the lengths that its
//! parameters and its input and target vectors must have.

use vstd::prelude::*;

verus! {

/// A vector or a matrix does not have the length that the network's shape
/// asks for.
#[derive(Debug, Clone, Copy, PartialEq, Eq)]
pub struct DimensionMismatch {
    /// The length that the shape asks for.
    pub expected: usize,
    /// The length that was given.
    pub found: usize,
}

/// `Ok` where the two lengths agree, else the mismatch of the two.
pub open spec fn fit(expected: usize, found: usize) -> Result<(), DimensionMismatch> {
    if found == expected {
        Ok(())
    } else {
        Err(DimensionMismatch { expected, found })
    }
}

/// `Ok` where every row has `columns` entries, else the mismatch of the first
/// row that has not.
pub open spec fn rows_fit(lengths: Seq<usize>, columns: usize) -> Result<(), DimensionMismatch>
    decreases lengths.len(),
{
    if lengths.len() == 0 {
        Ok(())
    } else if lengths[0] != columns {
        Err(DimensionMismatch { expected: columns, found: lengths[0] })
    } else {
        rows_fit(lengths.drop_first(), columns)
    }
}

/// `Ok` where the matrix has `rows` rows of `columns` entries each. A wrong
/// number of rows is reported before a wrong row.
pub open spec fn matrix_fits(lengths: Seq<usize>, rows: usize, columns: usize) -> Result<
    (),
    DimensionMismatch,
> {
    if lengths.len() != rows {
        Err(DimensionMismatch { expected: rows, found: lengths.len() as usize })
    } else {
        rows_fit(lengths, columns)
    }
}

/// Compares a length with the one that is expected.
pub fn check_len(expected: usize, found: usize) -> (res: Result<(), DimensionMismatch>)
    ensures
        res == fit(expected, found),
{
    if found == expected {
        Ok(())
    } else {
        Err(DimensionMismatch { expected, found })
    }
}

/// Checks a matrix, given by the lengths of its rows, against the number of
/// rows and columns that it must have.
pub fn check_matrix(lengths: &Vec<usize>, rows: usize, columns: usize) -> (res: Result<
    (),
    DimensionMismatch,
>)
    ensures
        res == matrix_fits(lengths@, rows, columns),
{
    if lengths.len() != rows {
        return Err(DimensionMismatch { expected: rows, found: lengths.len() });
    }
    let mut i: usize = 0;
    assert(lengths@.skip(0) =~= lengths@);
    while i < lengths.len()
        invariant
            i <= lengths.len(),
            lengths.len() == rows,
            rows_fit(lengths@, columns) == rows_fit(lengths@.skip(i as int), columns),
        decreases lengths.len() - i,
    {
        let ghost rest = lengths@.skip(i as int);
        assert(rest[0] == lengths[i as int]);
        assert(rest.drop_first() =~= lengths@.skip(i + 1));
        if lengths[i] != columns {
            return Err(DimensionMismatch { expected: columns, found: lengths[i] });
        }
        i = i + 1;
    }
    Ok(())
}

/// The sizes of the input, hidden and output layer. None of them is zero.
#[derive(Debug, Clone, Copy, PartialEq, Eq)]
pub struct NetworkShape {
    input_size: usize,
    hidden_size: usize,
    output_size: usize,
}

impl NetworkShape {
    pub closed spec fn inputs(&self) -> usize {
        self.input_size
    }

    pub closed spec fn hidden(&self) -> usize {
        self.hidden_size
    }

    pub closed spec fn outputs(&self) -> usize {
        self.output_size
    }

    /// Every layer has at least one unit.
    #[verifier::type_invariant]
    spec fn wf(&self) -> bool {
        self.input_size >= 1 && self.hidden_size >= 1 && self.output_size >= 1
    }

    /// What `check_parameters` answers: the first of the six lengths that
    /// does not fit, in the order of the weights into the hidden layer, the
    /// weights into the output layer, the hidden biases and the output biases.
    pub open spec fn parameters_fit(
        &self,
        weights_ih: Seq<usize>,
        weights_ho: Seq<usize>,
        bias_h: usize,
        bias_o: usize,
    ) -> Result<(), DimensionMismatch> {
        if matrix_fits(weights_ih, self.hidden(), self.inputs()) is Err {
            matrix_fits(weights_ih, self.hidden(), self.inputs())
        } else if matrix_fits(weights_ho, self.outputs(), self.hidden()) is Err {
            matrix_fits(weights_ho, self.outputs(), self.hidden())
        } else if fit(self.hidden(), bias_h) is Err {
            fit(self.hidden(), bias_h)
        } else {
            fit(self.outputs(), bias_o)
        }
    }

    /// The shape with the given layer sizes, or `None` where one is zero.
    pub fn new(input_size: usize, hidden_size: usize, output_size: usize) -> (shape: Option<Self>)
        ensures
            shape is Some <==> input_size >= 1 && hidden_size >= 1 && output_size >= 1,
            shape matches Some(s) ==> s.inputs() == input_size && s.hidden() == hidden_size
                && s.outputs() == output_size,
    {
        if input_size == 0 || hidden_size == 0 || output_size == 0 {
            None
        } else {
            Some(NetworkShape { input_size, hidden_size, output_size })
        }
    }

    pub fn input_size(&self) -> (size: usize)
        ensures
            size == self.inputs(),
            size >= 1,
    {
        proof {
            use_type_invariant(self);
        }
        self.input_size
    }

    pub fn hidden_size(&self) -> (size: usize)
        ensures
            size == self.hidden(),
            size >= 1,
    {
        proof {
            use_type_invariant(self);
        }
        self.hidden_size
    }

    pub fn output_size(&self) -> (size: usize)
        ensures
            size == self.outputs(),
            size >= 1,
    {
        proof {
            use_type_invariant(self);
        }
        self.output_size
    }

    /// An input vector must have one entry for each input unit.
    pub fn check_input(&self, len: usize) -> (res: Result<(), DimensionMismatch>)
        ensures
            res == fit(self.inputs(), len),
    {
        check_len(self.input_size, len)
    }

    /// A target vector must have one entry for each output unit.
    pub fn check_target(&self, len: usize) -> (res: Result<(), DimensionMismatch>)
        ensures
            res == fit(self.outputs(), len),
    {
        check_len(self.output_size, len)
    }

    /// Checks the lengths of a full set of parameters. The weights into the
    /// hidden layer have a row for each hidden unit and a column for each
    /// input; the weights into the output layer have a row for each output
    /// unit and a column for each hidden unit; each layer has one bias for
    /// each of its units. The matrices are given by the lengths of their rows.
    pub fn check_parameters(
        &self,
        weights_ih: &Vec<usize>,
        weights_ho: &Vec<usize>,
        bias_h: usize,
        bias_o: usize,
    ) -> (res: Result<(), DimensionMismatch>)
        ensures
            res == self.parameters_fit(weights_ih@, weights_ho@, bias_h, bias_o),
    {
        let ih = check_matrix(weights_ih, self.hidden_size, self.input_size);
        if ih.is_err() {
            return ih;
        }
        let ho = check_matrix(weights_ho, self.output_size, self.hidden_size);
        if ho.is_err() {
            return ho;
        }
        let bh = check_len(self.hidden_size, bias_h);
        if bh.is_err() {
            return bh;
        }
        check_len(self.output_size, bias_o)
    }
}

} // verus!
