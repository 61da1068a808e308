use vstd::prelude::*;

verus! {

/// Where the splitter stands within the current field.
#[derive(Clone, Copy, Debug, PartialEq, Eq, Structural)]
pub enum SplitMode {
    /// At the start of a field: nothing read yet.
    FieldStart,
    /// Inside a field that did not open with a quote.
    Unquoted,
    /// Inside a quoted field.
    Quoted,
    /// Inside a quoted field, just after a quote: it closes the field or, doubled,
    /// stands for one quote.
    QuoteInQuoted,
}

/// The splitter's state: the finished fields, the current field, and the mode.
pub struct SplitState {
    pub fields: Seq<Seq<char>>,
    pub current: Seq<char>,
    pub mode: SplitMode,
}

/// One character of a line: commas outside quotes end a field; a field that opens
/// with `"` runs to the closing `"`, in which `""` stands for `"`; text after the
/// closing quote is kept as it is.
pub open spec fn split_step(st: SplitState, c: char) -> SplitState {
    match st.mode {
        SplitMode::FieldStart => if c == '"' {
            SplitState { mode: SplitMode::Quoted, ..st }
        } else if c == ',' {
            SplitState { fields: st.fields.push(st.current), current: Seq::empty(), ..st }
        } else {
            SplitState { current: st.current.push(c), mode: SplitMode::Unquoted, ..st }
        },
        SplitMode::Unquoted => if c == ',' {
            SplitState {
                fields: st.fields.push(st.current),
                current: Seq::empty(),
                mode: SplitMode::FieldStart,
            }
        } else {
            SplitState { current: st.current.push(c), ..st }
        },
        SplitMode::Quoted => if c == '"' {
            SplitState { mode: SplitMode::QuoteInQuoted, ..st }
        } else {
            SplitState { current: st.current.push(c), ..st }
        },
        SplitMode::QuoteInQuoted => if c == '"' {
            SplitState { current: st.current.push(c), mode: SplitMode::Quoted, ..st }
        } else if c == ',' {
            SplitState {
                fields: st.fields.push(st.current),
                current: Seq::empty(),
                mode: SplitMode::FieldStart,
            }
        } else {
            SplitState { current: st.current.push(c), mode: SplitMode::Unquoted, ..st }
        },
    }
}

/// The splitter's state after reading `s` from the start of a line.
pub open spec fn split_run(s: Seq<char>) -> SplitState
    decreases s.len(),
{
    if s.len() == 0 {
        SplitState { fields: Seq::empty(), current: Seq::empty(), mode: SplitMode::FieldStart }
    } else {
        split_step(split_run(s.drop_last()), s.last())
    }
}

/// The fields of a comma-separated line, or `None` where a quote is left open.
pub open spec fn split_line(s: Seq<char>) -> Option<Seq<Seq<char>>> {
    let st = split_run(s);
    if st.mode == SplitMode::Quoted {
        None
    } else {
        Some(st.fields.push(st.current))
    }
}

pub open spec fn fields_view(fs: Seq<Vec<char>>) -> Seq<Seq<char>> {
    fs.map_values(|f: Vec<char>| f@)
}

/// Splits the line `v` into its fields (see `split_step`); `None` where a quote is
/// left open at the end of the line.
pub fn split_record(v: &Vec<char>) -> (r: Option<Vec<Vec<char>>>)
    ensures
        match r {
            Some(fs) => split_line(v@) == Some(fields_view(fs@)),
            None => split_line(v@) is None,
        },
{
    let mut fields: Vec<Vec<char>> = Vec::new();
    let mut current: Vec<char> = Vec::new();
    let mut mode = SplitMode::FieldStart;
    let mut i: usize = 0;
    assert(v@.take(0) =~= Seq::<char>::empty());
    assert(fields_view(fields@) =~= Seq::<Seq<char>>::empty());
    while i < v.len()
        invariant
            i <= v@.len(),
            split_run(v@.take(i as int)) == (SplitState {
                fields: fields_view(fields@),
                current: current@,
                mode,
            }),
        decreases v.len() - i,
    {
        let c = v[i];
        let ghost before = split_run(v@.take(i as int));
        assert(v@.take(i + 1).drop_last() =~= v@.take(i as int));
        assert(v@.take(i + 1).last() == c);
        match mode {
            SplitMode::FieldStart => {
                if c == '"' {
                    mode = SplitMode::Quoted;
                } else if c == ',' {
                    fields.push(current);
                    current = Vec::new();
                } else {
                    current.push(c);
                    mode = SplitMode::Unquoted;
                }
            },
            SplitMode::Unquoted => {
                if c == ',' {
                    fields.push(current);
                    current = Vec::new();
                    mode = SplitMode::FieldStart;
                } else {
                    current.push(c);
                }
            },
            SplitMode::Quoted => {
                if c == '"' {
                    mode = SplitMode::QuoteInQuoted;
                } else {
                    current.push(c);
                }
            },
            SplitMode::QuoteInQuoted => {
                if c == '"' {
                    current.push(c);
                    mode = SplitMode::Quoted;
                } else if c == ',' {
                    fields.push(current);
                    current = Vec::new();
                    mode = SplitMode::FieldStart;
                } else {
                    current.push(c);
                    mode = SplitMode::Unquoted;
                }
            },
        }
        assert(fields_view(fields@) =~= split_step(before, c).fields);
        assert(current@ =~= split_step(before, c).current);
        i = i + 1;
    }
    assert(v@.take(v@.len() as int) =~= v@);
    if mode == SplitMode::Quoted {
        None
    } else {
        fields.push(current);
        assert(fields_view(fields@) =~= split_line(v@)->0);
        Some(fields)
    }
}

} // verus!
