//! Matching command line arguments against declared parameters.
//!
//! A parser is built from required and optional parameter declarations and
//! then run over the argument words.  Reading the process arguments,
//! printing errors and exiting belong to the callers around the library;
//! here every failure is an explicit error value.

use vstd::prelude::*;

use crate::log::str_equal;

verus! {

/// One declared parameter: its name, and whether a value must follow it.
pub struct Parameter {
    pub long: String,
    pub has_value: bool,
}

/// The model of a [`Parameter`].
pub struct ParamModel {
    pub long: Seq<char>,
    pub has_value: bool,
}

impl View for Parameter {
    type V = ParamModel;

    open spec fn view(&self) -> ParamModel {
        ParamModel { long: self.long@, has_value: self.has_value }
    }
}

/// One parsed argument: its name, and its value if the parameter takes one.
pub struct Argument {
    pub name: String,
    pub value: Option<String>,
}

/// The model of an [`Argument`].
pub struct ArgModel {
    pub name: Seq<char>,
    pub value: Option<Seq<char>>,
}

impl View for Argument {
    type V = ArgModel;

    open spec fn view(&self) -> ArgModel {
        ArgModel {
            name: self.name@,
            value: match self.value {
                Some(ref v) => Some(v@),
                None => None,
            },
        }
    }
}

/// Why parsing failed: a parameter without its value, an argument given
/// twice, or a required argument that never appeared.
#[derive(Debug)]
pub enum CliError {
    MissingValue(String),
    DuplicateArgument(String),
    MissingRequired(String),
}

/// The model of a [`CliError`].
pub enum CliErrorModel {
    MissingValue(Seq<char>),
    DuplicateArgument(Seq<char>),
    MissingRequired(Seq<char>),
}

impl View for CliError {
    type V = CliErrorModel;

    open spec fn view(&self) -> CliErrorModel {
        match self {
            CliError::MissingValue(ref s) => CliErrorModel::MissingValue(s@),
            CliError::DuplicateArgument(ref s) => CliErrorModel::DuplicateArgument(s@),
            CliError::MissingRequired(ref s) => CliErrorModel::MissingRequired(s@),
        }
    }
}

pub open spec fn param_views(v: Seq<Parameter>) -> Seq<ParamModel> {
    v.map(|i: int, p: Parameter| p@)
}

pub open spec fn arg_views(v: Seq<Argument>) -> Seq<ArgModel> {
    v.map(|i: int, a: Argument| a@)
}

pub open spec fn str_views(v: Seq<String>) -> Seq<Seq<char>> {
    v.map(|i: int, s: String| s@)
}

/// One parameter held against the argument word at `i`: a parameter whose
/// name equals the word consumes it, with the following word as its value
/// where one is declared.
pub open spec fn param_step(
    p: ParamModel,
    cli: Seq<Seq<char>>,
    i: int,
    args: Seq<ArgModel>,
    found: Seq<Seq<char>>,
) -> Result<(Seq<ArgModel>, Seq<Seq<char>>), CliErrorModel> {
    if p.long != cli[i] {
        Ok((args, found))
    } else if p.has_value {
        if i + 1 < cli.len() {
            if found.contains(cli[i]) {
                Err(CliErrorModel::DuplicateArgument(cli[i]))
            } else {
                Ok((args.push(ArgModel { name: cli[i], value: Some(cli[i + 1]) }), found.push(cli[i])))
            }
        } else {
            Err(CliErrorModel::MissingValue(cli[i]))
        }
    } else {
        if found.contains(cli[i]) {
            Err(CliErrorModel::DuplicateArgument(cli[i]))
        } else {
            Ok((args.push(ArgModel { name: cli[i], value: None }), found.push(cli[i])))
        }
    }
}

pub open spec fn parse_arg_at(
    params: Seq<ParamModel>,
    cli: Seq<Seq<char>>,
    i: int,
    j: int,
    args: Seq<ArgModel>,
    found: Seq<Seq<char>>,
) -> Result<(Seq<ArgModel>, Seq<Seq<char>>), CliErrorModel>
    decreases params.len() - j when 0 <= j
{
    if j >= params.len() {
        Ok((args, found))
    } else {
        match param_step(params[j], cli, i, args, found) {
            Ok(st) => parse_arg_at(params, cli, i, j + 1, st.0, st.1),
            Err(e) => Err(e),
        }
    }
}

/// All argument words from index `i` on, held against the parameters in
/// turn.
pub open spec fn parse_all(
    params: Seq<ParamModel>,
    cli: Seq<Seq<char>>,
    i: int,
    args: Seq<ArgModel>,
    found: Seq<Seq<char>>,
) -> Result<(Seq<ArgModel>, Seq<Seq<char>>), CliErrorModel>
    decreases cli.len() - i when 0 <= i
{
    if i >= cli.len() {
        Ok((args, found))
    } else {
        match parse_arg_at(params, cli, i, 0, args, found) {
            Ok(st) => parse_all(params, cli, i + 1, st.0, st.1),
            Err(e) => Err(e),
        }
    }
}

/// The first required parameter (from `k` on) whose name never appeared.
pub open spec fn first_missing(
    required: Seq<ParamModel>,
    found: Seq<Seq<char>>,
    k: int,
) -> Option<Seq<char>>
    decreases required.len() - k when 0 <= k
{
    if k >= required.len() {
        None
    } else if !found.contains(required[k].long) {
        Some(required[k].long)
    } else {
        first_missing(required, found, k + 1)
    }
}

/// What parsing the words `cli` against the declarations yields: the
/// parsed arguments, or the first error met.
pub open spec fn parse_result(
    required: Seq<ParamModel>,
    optional: Seq<ParamModel>,
    cli: Seq<Seq<char>>,
) -> Result<Seq<ArgModel>, CliErrorModel> {
    match parse_all(required + optional, cli, 0, Seq::empty(), Seq::empty()) {
        Ok(st) => match first_missing(required, st.1, 0) {
            None => Ok(st.0),
            Some(name) => Err(CliErrorModel::MissingRequired(name)),
        },
        Err(e) => Err(e),
    }
}

fn contains_str(v: &Vec<String>, s: &str) -> (r: bool)
    ensures
        r == str_views(v@).contains(s@),
{
    let n = v.len();
    let mut k: usize = 0;
    while k < n
        invariant
            0 <= k <= n,
            n == v@.len(),
            forall|j: int| 0 <= j < k ==> #[trigger] str_views(v@)[j] != s@,
        decreases n - k,
    {
        if str_equal(v[k].as_str(), s) {
            assert(str_views(v@)[k as int] == s@);
            return true;
        }
        k = k + 1;
    }
    assert(!str_views(v@).contains(s@)) by {
        if str_views(v@).contains(s@) {
            let j = choose|j: int| 0 <= j < str_views(v@).len() && str_views(v@)[j] == s@;
        }
    }
    false
}

/// Declares what command line arguments a program may take.
pub struct ArgumentsParser {
    pub required: Vec<Parameter>,
    pub optional: Vec<Parameter>,
}

impl ArgumentsParser {
    /// A parser with no parameters declared yet.
    pub fn new() -> (r: Self)
        ensures
            r.required@ == Seq::<Parameter>::empty(),
            r.optional@ == Seq::<Parameter>::empty(),
    {
        Self { required: Vec::new(), optional: Vec::new() }
    }

    /// Declare an argument that must be present, with a value.
    pub fn required(self, long: String) -> (r: Self)
        ensures
            r.required@ == self.required@.push(Parameter { long, has_value: true }),
            r.optional@ == self.optional@,
    {
        let mut s = self;
        s.required.push(Parameter { long, has_value: true });
        s
    }

    /// Declare an argument that may be present: followed by a value when
    /// `has_value` holds, a bare flag otherwise.
    pub fn optional(self, long: String, has_value: bool) -> (r: Self)
        ensures
            r.optional@ == self.optional@.push(Parameter { long, has_value }),
            r.required@ == self.required@,
    {
        let mut s = self;
        s.optional.push(Parameter { long, has_value });
        s
    }

    /// Parse the given argument words against the declared parameters.
    pub fn parse(self, cli_args: Vec<String>) -> (r: Result<Arguments, CliError>)
        ensures
            match r {
                Ok(args) => parse_result(
                    param_views(self.required@),
                    param_views(self.optional@),
                    str_views(cli_args@),
                ) == Ok::<_, CliErrorModel>(arg_views(args.arguments@)),
                Err(e) => parse_result(
                    param_views(self.required@),
                    param_views(self.optional@),
                    str_views(cli_args@),
                ) == Err::<Seq<ArgModel>, _>(e@),
            },
    {
        let ghost params = param_views(self.required@) + param_views(self.optional@);
        let ghost cliv = str_views(cli_args@);
        let rn = self.required.len();
        let on = self.optional.len();
        let cn = cli_args.len();
        let mut args: Vec<Argument> = Vec::new();
        let mut found: Vec<String> = Vec::new();
        let mut i: usize = 0;
        proof {
            assert(arg_views(args@) =~= Seq::<ArgModel>::empty());
            assert(str_views(found@) =~= Seq::<Seq<char>>::empty());
        }
        while i < cn
            invariant
                0 <= i <= cn,
                cn == cli_args@.len(),
                rn == self.required@.len(),
                on == self.optional@.len(),
                params.len() == rn + on,
                params == param_views(self.required@) + param_views(self.optional@),
                cliv == str_views(cli_args@),
                parse_all(params, cliv, i as int, arg_views(args@), str_views(found@))
                    == parse_all(params, cliv, 0, Seq::empty(), Seq::empty()),
            decreases cn - i,
        {
            let ghost args0 = arg_views(args@);
            let ghost found0 = str_views(found@);
            let mut j: usize = 0;
            while j < rn
                invariant
                    0 <= j <= rn,
                    0 <= i < cn,
                    cn == cli_args@.len(),
                    rn == self.required@.len(),
                    on == self.optional@.len(),
                    params.len() == rn + on,
                    params == param_views(self.required@) + param_views(self.optional@),
                    cliv == str_views(cli_args@),
                    parse_all(params, cliv, i as int, args0, found0) == parse_all(
                        params,
                        cliv,
                        0,
                        Seq::empty(),
                        Seq::empty(),
                    ),
                    parse_arg_at(
                        params,
                        cliv,
                        i as int,
                        j as int,
                        arg_views(args@),
                        str_views(found@),
                    ) == parse_arg_at(params, cliv, i as int, 0, args0, found0),
                decreases rn - j,
            {
                proof {
                    assert(params[j as int] == param_views(self.required@)[j as int]);
                    assert(params[j as int] == self.required@[j as int]@);
                }
                if let Some(e) = Self::apply_param(
                    &self.required[j],
                    &cli_args,
                    i,
                    &mut args,
                    &mut found,
                ) {
                    proof {
                        lemma_parse_error(params, cliv, i as int, args0, found0, e@);
                    }
                    return Err(e);
                }
                j = j + 1;
            }
            let mut j2: usize = 0;
            while j2 < on
                invariant
                    0 <= j2 <= on,
                    0 <= i < cn,
                    cn == cli_args@.len(),
                    rn == self.required@.len(),
                    on == self.optional@.len(),
                    params.len() == rn + on,
                    params == param_views(self.required@) + param_views(self.optional@),
                    cliv == str_views(cli_args@),
                    parse_all(params, cliv, i as int, args0, found0) == parse_all(
                        params,
                        cliv,
                        0,
                        Seq::empty(),
                        Seq::empty(),
                    ),
                    parse_arg_at(
                        params,
                        cliv,
                        i as int,
                        rn + j2 as int,
                        arg_views(args@),
                        str_views(found@),
                    ) == parse_arg_at(params, cliv, i as int, 0, args0, found0),
                decreases on - j2,
            {
                proof {
                    assert(params[rn + j2 as int] == param_views(self.optional@)[j2 as int]);
                    assert(params[rn + j2 as int] == self.optional@[j2 as int]@);
                }
                if let Some(e) = Self::apply_param(
                    &self.optional[j2],
                    &cli_args,
                    i,
                    &mut args,
                    &mut found,
                ) {
                    proof {
                        lemma_parse_error(params, cliv, i as int, args0, found0, e@);
                    }
                    return Err(e);
                }
                j2 = j2 + 1;
            }
            proof {
                assert(parse_arg_at(
                    params,
                    cliv,
                    i as int,
                    rn + on as int,
                    arg_views(args@),
                    str_views(found@),
                ) == Ok::<_, CliErrorModel>((arg_views(args@), str_views(found@))));
                assert(parse_all(params, cliv, i as int, args0, found0) == parse_all(
                    params,
                    cliv,
                    i + 1,
                    arg_views(args@),
                    str_views(found@),
                ));
            }
            i = i + 1;
        }
        proof {
            assert(parse_all(params, cliv, cn as int, arg_views(args@), str_views(found@))
                == Ok::<_, CliErrorModel>((arg_views(args@), str_views(found@))));
        }
        let mut k: usize = 0;
        let ghost foundv = str_views(found@);
        while k < rn
            invariant
                0 <= k <= rn,
                rn == self.required@.len(),
                foundv == str_views(found@),
                params == param_views(self.required@) + param_views(self.optional@),
                cliv == str_views(cli_args@),
                parse_all(params, cliv, 0, Seq::empty(), Seq::empty()) == Ok::<
                    _,
                    CliErrorModel,
                >((arg_views(args@), foundv)),
                first_missing(param_views(self.required@), foundv, k as int) == first_missing(
                    param_views(self.required@),
                    foundv,
                    0,
                ),
            decreases rn - k,
        {
            proof {
                assert(param_views(self.required@)[k as int] == self.required@[k as int]@);
            }
            if !contains_str(&found, self.required[k].long.as_str()) {
                proof {
                    let reqv = param_views(self.required@);
                    assert(first_missing(reqv, foundv, k as int) == Some(reqv[k as int].long));
                }
                return Err(CliError::MissingRequired(self.required[k].long.clone()));
            }
            k = k + 1;
        }
        Ok(Arguments { arguments: args })
    }

    /// Hold one declared parameter against the argument word at `i`.
    fn apply_param(
        param: &Parameter,
        cli_args: &Vec<String>,
        i: usize,
        args: &mut Vec<Argument>,
        found: &mut Vec<String>,
    ) -> (r: Option<CliError>)
        requires
            i < cli_args@.len(),
        ensures
            match r {
                None => param_step(
                    param@,
                    str_views(cli_args@),
                    i as int,
                    arg_views(old(args)@),
                    str_views(old(found)@),
                ) == Ok::<_, CliErrorModel>((arg_views(final(args)@), str_views(final(found)@))),
                Some(e) => param_step(
                    param@,
                    str_views(cli_args@),
                    i as int,
                    arg_views(old(args)@),
                    str_views(old(found)@),
                ) == Err::<(Seq<ArgModel>, Seq<Seq<char>>), _>(e@) && final(args)@ == old(args)@
                    && final(found)@ == old(found)@,
            },
    {
        let ghost cliv = str_views(cli_args@);
        let cn = cli_args.len();
        proof {
            assert(cliv[i as int] == cli_args@[i as int]@);
        }
        if !str_equal(param.long.as_str(), cli_args[i].as_str()) {
            return None;
        }
        if param.has_value {
            if i + 1 < cn {
                if contains_str(found, cli_args[i].as_str()) {
                    return Some(CliError::DuplicateArgument(cli_args[i].clone()));
                }
                proof {
                    assert(cliv[i + 1] == cli_args@[i + 1]@);
                }
                let ghost argsb = arg_views(args@);
                let ghost foundb = str_views(found@);
                args.push(
                    Argument { name: cli_args[i].clone(), value: Some(cli_args[i + 1].clone()) },
                );
                found.push(cli_args[i].clone());
                proof {
                    assert(arg_views(args@) =~= argsb.push(
                        ArgModel { name: cliv[i as int], value: Some(cliv[i + 1]) },
                    ));
                    assert(str_views(found@) =~= foundb.push(cliv[i as int]));
                }
                None
            } else {
                Some(CliError::MissingValue(cli_args[i].clone()))
            }
        } else {
            if contains_str(found, cli_args[i].as_str()) {
                return Some(CliError::DuplicateArgument(cli_args[i].clone()));
            }
            let ghost argsb = arg_views(args@);
            let ghost foundb = str_views(found@);
            args.push(Argument { name: cli_args[i].clone(), value: None });
            found.push(cli_args[i].clone());
            proof {
                assert(arg_views(args@) =~= argsb.push(
                    ArgModel { name: cliv[i as int], value: None },
                ));
                assert(str_views(found@) =~= foundb.push(cliv[i as int]));
            }
            None
        }
    }
}

/// A failing step fails the whole parse.
proof fn lemma_parse_error(
    params: Seq<ParamModel>,
    cli: Seq<Seq<char>>,
    i: int,
    args: Seq<ArgModel>,
    found: Seq<Seq<char>>,
    e: CliErrorModel,
)
    requires
        0 <= i < cli.len(),
        parse_arg_at(params, cli, i, 0, args, found) == Err::<
            (Seq<ArgModel>, Seq<Seq<char>>),
            _,
        >(e),
    ensures
        parse_all(params, cli, i, args, found) == Err::<(Seq<ArgModel>, Seq<Seq<char>>), _>(e),
{
}

/// The first parsed argument with the given name.
pub open spec fn first_named(args: Seq<ArgModel>, name: Seq<char>) -> Option<ArgModel>
    decreases args.len(),
{
    if args.len() == 0 {
        None
    } else if args[0].name == name {
        Some(args[0])
    } else {
        first_named(args.drop_first(), name)
    }
}

/// Reader for the values and the presence of parsed arguments.
pub struct Arguments {
    pub arguments: Vec<Argument>,
}

impl Arguments {
    /// The value of the first argument named `name`, if one was given.
    /// Asking for the value of a bare flag is a caller error, ruled out
    /// here; callers that cannot rule it out use `has_flag`.
    pub fn get_value(&self, name: &str) -> (r: Option<String>)
        requires
            forall|k: int|
                0 <= k < self.arguments@.len() && (#[trigger] self.arguments@[k])@.name == name@
                    ==> self.arguments@[k]@.value is Some,
        ensures
            match first_named(arg_views(self.arguments@), name@) {
                Some(a) => r is Some && Some(r->Some_0@) == a.value,
                None => r is None,
            },
    {
        let n = self.arguments.len();
        let ghost av = arg_views(self.arguments@);
        let mut k: usize = 0;
        assert(av.skip(0) =~= av);
        while k < n
            invariant
                0 <= k <= n,
                n == self.arguments@.len(),
                av == arg_views(self.arguments@),
                forall|k2: int|
                    0 <= k2 < n && (#[trigger] self.arguments@[k2])@.name == name@
                        ==> self.arguments@[k2]@.value is Some,
                first_named(av, name@) == first_named(av.skip(k as int), name@),
            decreases n - k,
        {
            let ghost rem = av.skip(k as int);
            proof {
                assert(rem[0] == av[k as int]);
                assert(av[k as int] == self.arguments@[k as int]@);
                assert(rem.drop_first() =~= av.skip(k + 1));
            }
            if str_equal(self.arguments[k].name.as_str(), name) {
                match &self.arguments[k].value {
                    Some(v) => {
                        return Some(v.clone());
                    },
                    None => {
                        // a flag with this name is excluded by the precondition
                        assert(false);
                    },
                }
            }
            k = k + 1;
        }
        assert(av.skip(n as int) =~= Seq::<ArgModel>::empty());
        None
    }

    /// Whether the bare flag `name` was given.
    pub fn has_flag(&self, name: &str) -> (r: bool)
        ensures
            r == exists|k: int|
                0 <= k < self.arguments@.len() && (#[trigger] self.arguments@[k])@.name == name@
                    && self.arguments@[k]@.value is None,
    {
        let n = self.arguments.len();
        let mut k: usize = 0;
        while k < n
            invariant
                0 <= k <= n,
                n == self.arguments@.len(),
                forall|j: int|
                    0 <= j < k ==> !((#[trigger] self.arguments@[j])@.name == name@
                        && self.arguments@[j]@.value is None),
            decreases n - k,
        {
            if str_equal(self.arguments[k].name.as_str(), name) {
                match &self.arguments[k].value {
                    None => {
                        assert(self.arguments@[k as int]@.name == name@);
                        return true;
                    },
                    Some(_) => {},
                }
            }
            k = k + 1;
        }
        false
    }
}

} // verus!
