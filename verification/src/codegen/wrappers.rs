//! Emission of functions, methods and the wrappers of their decorators.
use vstd::prelude::*;

use crate::ast::{
    error_capable, Decorator, FnDecl, ImplBlock, MethodDecl, ParamDecl, ReceiverKind,
    ReturnType, Stmt,
};
use crate::codegen::decl::{
    custom_wrapper_go, decorator_wrapper_go, factory_args, forward_go, function_go,
    function_like_go, function_sig, is_error_main, key_fields, key_inits, log_wrapper_go,
    memo_value_type, memoize_wrapper_go, method_sig, methods_go, named_function_go, parse_count,
    prev_name, retry_backoff, retry_times, retry_wrapper_go, sleep_line, wrapper_name,
    wrappers_go,
};
use crate::codegen::stmt::{block_go, emitted, err_return, Emitted};
use crate::codegen::types::{
    call_text, call_value, go_type, push_call, push_call_value, push_signature, render_type,
    sig_view, signature_text, FnSignature, SigView,
};
use crate::codegen::{transform, transform_expr, with_import, with_main, GenState, GoGenerator};
use crate::sema::model::{EnumInfo, SemanticModel};
use crate::sema::signature::parse_u64_text;
use crate::text::{decimal, join, push_decimal, push_str, str_eq, str_to_string, trim, trim_string};

verus! {

fn count_arg(arg: &str) -> (r: Option<usize>)
    ensures
        r matches Some(v) ==> parse_count(arg@) == Some(v as nat),
        r is None ==> parse_count(arg@) is None,
{
    match parse_u64_text(arg) {
        Some(v) => {
            if v <= usize::MAX as u64 {
                Some(v as usize)
            } else {
                None
            }
        },
        None => None,
    }
}

fn times_of(d: &Decorator) -> (r: usize)
    ensures
        r == retry_times(*d),
{
    if d.args.len() > 0 {
        match count_arg(d.args[0].as_str()) {
            Some(v) => v,
            None => 1,
        }
    } else {
        1
    }
}

fn backoff_of(d: &Decorator) -> (r: usize)
    ensures
        r == retry_backoff(*d),
{
    if d.args.len() > 1 {
        match count_arg(d.args[1].as_str()) {
            Some(v) => v,
            None => 0,
        }
    } else {
        0
    }
}

fn err_return_text(ret: &ReturnType, err: &str, ind: &str) -> (r: String)
    ensures
        r@ == err_return(*ret, err@, ind@),
{
    let mut r = str_to_string(ind);
    match ret {
        ReturnType::ErrorOnly => {
            push_str(&mut r, "return ");
            push_str(&mut r, err);
            push_str(&mut r, "\n");
        },
        ReturnType::TypeWithError(t) => {
            push_str(&mut r, "return ");
            let z = crate::codegen::types::zero_value_expr(t.raw.as_str());
            push_str(&mut r, z.as_str());
            push_str(&mut r, ", ");
            push_str(&mut r, err);
            push_str(&mut r, "\n");
        },
        _ => {
            push_str(&mut r, "return\n");
        },
    }
    assert(r@ =~= err_return(*ret, err@, ind@));
    r
}

fn log_wrapper_text(sig: &FnSignature, wrapper: &str, prev: &str) -> (r: String)
    ensures
        r@ == log_wrapper_go(sig_view(*sig), wrapper@, prev@),
{
    let ghost sv = sig_view(*sig);
    let mut out = String::new();
    push_signature(&mut out, sig, wrapper);
    push_str(&mut out, " {\n");
    push_str(&mut out, "\tfmt.Printf(\"[goplus] enter ");
    push_str(&mut out, sig.name.as_str());
    push_str(&mut out, "\\n\")\n");
    let mut call = String::new();
    push_call(&mut call, sig, prev);
    let mut exit = str_to_string("\tfmt.Printf(\"[goplus] exit ");
    push_str(&mut exit, sig.name.as_str());
    push_str(&mut exit, "\\n\")\n");
    let mut errline = str_to_string("\t\tfmt.Printf(\"[goplus] error ");
    push_str(&mut errline, sig.name.as_str());
    push_str(&mut errline, ": %v\\n\", err)\n");
    match &sig.ret {
        ReturnType::Void => {
            push_str(&mut out, "\t");
            push_str(&mut out, call.as_str());
            push_str(&mut out, "\n");
            push_str(&mut out, exit.as_str());
        },
        ReturnType::Type(_) => {
            push_str(&mut out, "\tresult := ");
            push_str(&mut out, call.as_str());
            push_str(&mut out, "\n");
            push_str(&mut out, exit.as_str());
            push_str(&mut out, "\treturn result\n");
        },
        ReturnType::ErrorOnly => {
            push_str(&mut out, "\terr := ");
            push_str(&mut out, call.as_str());
            push_str(&mut out, "\n");
            push_str(&mut out, "\tif err != nil {\n");
            push_str(&mut out, errline.as_str());
            push_str(&mut out, "\t\treturn err\n\t}\n");
            push_str(&mut out, exit.as_str());
            push_str(&mut out, "\treturn nil\n");
        },
        ReturnType::TypeWithError(_) => {
            push_str(&mut out, "\tresult, err := ");
            push_str(&mut out, call.as_str());
            push_str(&mut out, "\n");
            push_str(&mut out, "\tif err != nil {\n");
            push_str(&mut out, errline.as_str());
            push_str(&mut out, "\t\treturn result, err\n\t}\n");
            push_str(&mut out, exit.as_str());
            push_str(&mut out, "\treturn result, nil\n");
        },
    }
    push_str(&mut out, "}");
    assert(out@ =~= log_wrapper_go(sv, wrapper@, prev@));
    out
}

fn retry_wrapper_text(sig: &FnSignature, wrapper: &str, prev: &str, d: &Decorator) -> (r: String)
    ensures
        r@ == retry_wrapper_go(sig_view(*sig), wrapper@, prev@, *d),
{
    let ghost sv = sig_view(*sig);
    let times = times_of(d);
    let backoff = backoff_of(d);
    let mut call = String::new();
    push_call(&mut call, sig, prev);
    let mut head = str_to_string("\tvar lastErr error\n");
    push_str(&mut head, "\tfor attempt := 0; attempt < ");
    push_decimal(&mut head, times);
    push_str(&mut head, "; attempt++ {\n");
    let mut sleep = String::new();
    if backoff > 0 {
        push_str(&mut sleep, "\t\ttime.Sleep(time.Duration(");
        push_decimal(&mut sleep, backoff);
        push_str(&mut sleep, ") * time.Millisecond)\n");
    }
    assert(sleep@ =~= sleep_line(backoff as nat));
    let mut out = String::new();
    push_signature(&mut out, sig, wrapper);
    push_str(&mut out, " {\n");
    match &sig.ret {
        ReturnType::ErrorOnly => {
            push_str(&mut out, head.as_str());
            push_str(&mut out, "\t\tif err := ");
            push_str(&mut out, call.as_str());
            push_str(&mut out, "; err == nil {\n");
            push_str(&mut out, "\t\t\treturn nil\n\t\t} else {\n\t\t\tlastErr = err\n\t\t}\n");
            push_str(&mut out, sleep.as_str());
            push_str(&mut out, "\t}\n\treturn lastErr\n");
        },
        ReturnType::TypeWithError(_) => {
            push_str(&mut out, head.as_str());
            push_str(&mut out, "\t\tresult, err := ");
            push_str(&mut out, call.as_str());
            push_str(&mut out, "\n");
            push_str(&mut out, "\t\tif err == nil {\n\t\t\treturn result, nil\n\t\t}\n");
            push_str(&mut out, "\t\tlastErr = err\n");
            push_str(&mut out, sleep.as_str());
            push_str(&mut out, "\t}\n");
            let er = err_return_text(&sig.ret, "lastErr", "\t");
            push_str(&mut out, er.as_str());
        },
        _ => {
            push_str(&mut out, "\treturn ");
            push_str(&mut out, call.as_str());
            push_str(&mut out, "\n");
        },
    }
    push_str(&mut out, "}");
    assert(out@ =~= retry_wrapper_go(sv, wrapper@, prev@, *d));
    out
}

fn push_key_fields(out: &mut String, ps: &Vec<ParamDecl>)
    ensures
        final(out)@ == old(out)@ + key_fields(ps@),
{
    let ghost start = out@;
    let mut i: usize = 0;
    assert(ps@.take(0) =~= Seq::<ParamDecl>::empty());
    while i < ps.len()
        invariant
            0 <= i <= ps@.len(),
            out@ == start + key_fields(ps@.take(i as int)),
        decreases ps@.len() - i,
    {
        assert(ps@.take(i + 1).drop_last() =~= ps@.take(i as int));
        push_str(out, "\tP");
        push_decimal(out, i);
        push_str(out, " ");
        let g = render_type(ps[i].ty.raw.as_str());
        push_str(out, g.as_str());
        push_str(out, "\n");
        i = i + 1;
    }
    assert(ps@.take(ps@.len() as int) =~= ps@);
}

fn push_key_inits(out: &mut String, ps: &Vec<ParamDecl>)
    ensures
        final(out)@ == old(out)@ + join(key_inits(ps@), ", "@),
{
    let ghost parts = key_inits(ps@);
    let ghost start = out@;
    let mut i: usize = 0;
    assert(parts.take(0) =~= Seq::<Seq<char>>::empty());
    while i < ps.len()
        invariant
            0 <= i <= ps@.len(),
            parts == key_inits(ps@),
            out@ == start + join(parts.take(i as int), ", "@),
        decreases ps@.len() - i,
    {
        assert(parts.take(i + 1).drop_last() =~= parts.take(i as int));
        if i > 0 {
            push_str(out, ", ");
        }
        push_str(out, "P");
        push_decimal(out, i);
        push_str(out, ": ");
        push_str(out, ps[i].name.as_str());
        i = i + 1;
    }
    assert(parts.take(ps@.len() as int) =~= parts);
}

fn memoize_wrapper_text(sig: &FnSignature, wrapper: &str, prev: &str) -> (r: String)
    ensures
        r@ == memoize_wrapper_go(sig_view(*sig), wrapper@, prev@),
{
    let ghost sv = sig_view(*sig);
    let mut key = str_to_string(wrapper);
    push_str(&mut key, "Key");
    let mut cache = str_to_string(wrapper);
    push_str(&mut cache, "Cache");
    let mut mu = str_to_string(wrapper);
    push_str(&mut mu, "Mu");
    let value_type = match &sig.ret {
        ReturnType::Type(t) => render_type(t.raw.as_str()),
        ReturnType::TypeWithError(t) => render_type(t.raw.as_str()),
        _ => str_to_string("interface{}"),
    };
    assert(value_type@ == memo_value_type(sv.ret));
    let mut out = str_to_string("type ");
    push_str(&mut out, key.as_str());
    push_str(&mut out, " struct {\n");
    push_key_fields(&mut out, &sig.params);
    push_str(&mut out, "}\n\n");
    push_str(&mut out, "var ");
    push_str(&mut out, mu.as_str());
    push_str(&mut out, " sync.Mutex\n");
    push_str(&mut out, "var ");
    push_str(&mut out, cache.as_str());
    push_str(&mut out, " = map[");
    push_str(&mut out, key.as_str());
    push_str(&mut out, "]");
    push_str(&mut out, value_type.as_str());
    push_str(&mut out, "{}\n\n");
    push_signature(&mut out, sig, wrapper);
    push_str(&mut out, " {\n");
    push_str(&mut out, "\tkey := ");
    push_str(&mut out, key.as_str());
    push_str(&mut out, "{");
    push_key_inits(&mut out, &sig.params);
    push_str(&mut out, "}\n");
    push_str(&mut out, "\t");
    push_str(&mut out, mu.as_str());
    push_str(&mut out, ".Lock()\n");
    push_str(&mut out, "\tif cached, ok := ");
    push_str(&mut out, cache.as_str());
    push_str(&mut out, "[key]; ok {\n");
    push_str(&mut out, "\t\t");
    push_str(&mut out, mu.as_str());
    push_str(&mut out, ".Unlock()\n");
    push_str(&mut out, "\t\treturn cached\n\t}\n");
    push_str(&mut out, "\t");
    push_str(&mut out, mu.as_str());
    push_str(&mut out, ".Unlock()\n");
    push_str(&mut out, "\tresult := ");
    push_call(&mut out, sig, prev);
    push_str(&mut out, "\n");
    push_str(&mut out, "\t");
    push_str(&mut out, mu.as_str());
    push_str(&mut out, ".Lock()\n");
    push_str(&mut out, "\t");
    push_str(&mut out, cache.as_str());
    push_str(&mut out, "[key] = result\n");
    push_str(&mut out, "\t");
    push_str(&mut out, mu.as_str());
    push_str(&mut out, ".Unlock()\n");
    push_str(&mut out, "\treturn result\n");
    push_str(&mut out, "}");
    assert(out@ =~= memoize_wrapper_go(sv, wrapper@, prev@));
    out
}

fn custom_wrapper_text(
    model: &SemanticModel,
    sig: &FnSignature,
    wrapper: &str,
    prev: &str,
    d: &Decorator,
) -> (r: String)
    ensures
        r@ == custom_wrapper_go(sig_view(*sig), wrapper@, prev@, *d, model@.enums),
{
    let ghost sv = sig_view(*sig);
    let ghost es = model@.enums;
    let mut out = String::new();
    push_signature(&mut out, sig, wrapper);
    push_str(&mut out, " {\n");
    push_str(&mut out, "\tdecorated := ");
    push_str(&mut out, d.name.as_str());
    push_str(&mut out, "(");
    let ghost args = factory_args(sv, prev@, *d, es);
    let ghost start = out@;
    let target = crate::codegen::types::call_target_expr(sig, prev);
    push_str(&mut out, target.as_str());
    assert(args.take(1) =~= seq![args[0]]);
    let mut i: usize = 0;
    while i < d.args.len()
        invariant
            0 <= i <= d.args@.len(),
            args == factory_args(sv, prev@, *d, es),
            es == model@.enums,
            args.len() == d.args@.len() + 1,
            out@ == start + join(args.take(i + 1 as int), ", "@),
        decreases d.args@.len() - i,
    {
        assert(args.take(i + 2).drop_last() =~= args.take(i + 1 as int));
        push_str(&mut out, ", ");
        let t = transform_expr(model, d.args[i].as_str());
        push_str(&mut out, t.as_str());
        assert(args[i + 1] == transform(es, d.args@[i as int]@));
        i = i + 1;
    }
    assert(args.take(d.args@.len() + 1 as int) =~= args);
    push_str(&mut out, ")\n");
    let mut call = String::new();
    push_call_value(&mut call, sig, "decorated");
    match &sig.ret {
        ReturnType::Void => {
            push_str(&mut out, "\t");
            push_str(&mut out, call.as_str());
            push_str(&mut out, "\n");
        },
        _ => {
            push_str(&mut out, "\treturn ");
            push_str(&mut out, call.as_str());
            push_str(&mut out, "\n");
        },
    }
    push_str(&mut out, "}");
    assert(out@ =~= custom_wrapper_go(sv, wrapper@, prev@, *d, es));
    out
}

fn forward_text(sig: &FnSignature, go_name: &str, target: &str) -> (r: String)
    ensures
        r@ == forward_go(sig_view(*sig), go_name@, target@),
{
    let mut out = String::new();
    push_signature(&mut out, sig, go_name);
    push_str(&mut out, " {\n");
    match &sig.ret {
        ReturnType::Void => {
            push_str(&mut out, "\t");
        },
        _ => {
            push_str(&mut out, "\treturn ");
        },
    }
    push_call(&mut out, sig, target);
    push_str(&mut out, "\n");
    push_str(&mut out, "}");
    assert(out@ =~= forward_go(sig_view(*sig), go_name@, target@));
    out
}

impl GoGenerator {
    fn emit_decorator_wrapper(
        &mut self,
        model: &SemanticModel,
        sig: &FnSignature,
        wrapper: &str,
        prev: &str,
        d: &Decorator,
        allow_memoize: bool,
    ) -> (r: String)
        requires
            old(self).wf(),
        ensures
            final(self).wf(),
            r@ == decorator_wrapper_go(
                sig_view(*sig),
                wrapper@,
                prev@,
                *d,
                allow_memoize,
                model@.enums,
                old(self).state(),
            ).text,
            final(self).state() == decorator_wrapper_go(
                sig_view(*sig),
                wrapper@,
                prev@,
                *d,
                allow_memoize,
                model@.enums,
                old(self).state(),
            ).state,
    {
        let name = d.name.as_str();
        if str_eq(name, "log") {
            self.add_import("fmt");
            log_wrapper_text(sig, wrapper, prev)
        } else if str_eq(name, "retry") {
            if backoff_of(d) > 0 && sig.ret.is_error_capable() {
                self.add_import("time");
            }
            retry_wrapper_text(sig, wrapper, prev, d)
        } else if str_eq(name, "memoize") && allow_memoize {
            self.add_import("sync");
            memoize_wrapper_text(sig, wrapper, prev)
        } else {
            custom_wrapper_text(model, sig, wrapper, prev, d)
        }
    }

    fn emit_named_function(
        &mut self,
        model: &SemanticModel,
        sig: &FnSignature,
        go_name: &str,
        body: &crate::ast::Block,
    ) -> (r: String)
        requires
            old(self).wf(),
        ensures
            final(self).wf(),
            r@ == named_function_go(
                sig_view(*sig),
                go_name@,
                body.stmts@,
                model@.enums,
                old(self).state(),
            ).text,
            final(self).state() == named_function_go(
                sig_view(*sig),
                go_name@,
                body.stmts@,
                model@.enums,
                old(self).state(),
            ).state,
    {
        let mut out = String::new();
        push_signature(&mut out, sig, go_name);
        push_str(&mut out, " {\n");
        let b = self.emit_block(model, body, &sig.ret, "\t");
        push_str(&mut out, b.as_str());
        push_str(&mut out, "}");
        out
    }

    #[verifier::rlimit(50)]
    #[verifier::spinoff_prover]
    fn emit_function_like(
        &mut self,
        model: &SemanticModel,
        sig: &FnSignature,
        body: &crate::ast::Block,
        decorators: &Vec<Decorator>,
        allow_memoize: bool,
    ) -> (r: String)
        requires
            old(self).wf(),
        ensures
            final(self).wf(),
            r@ == function_like_go(
                sig_view(*sig),
                body.stmts@,
                decorators@,
                allow_memoize,
                model@.enums,
                old(self).state(),
            ).text,
            final(self).state() == function_like_go(
                sig_view(*sig),
                body.stmts@,
                decorators@,
                allow_memoize,
                model@.enums,
                old(self).state(),
            ).state,
    {
        let ghost sv = sig_view(*sig);
        let ghost es = model@.enums;
        if decorators.len() == 0 {
            return self.emit_named_function(model, sig, sig.name.as_str(), body);
        }
        let mut inner = sig.name.clone();
        push_str(&mut inner, "__inner");
        let mut out = self.emit_named_function(model, sig, inner.as_str(), body);
        let ghost s1 = self.state();
        let ghost t1 = out@;
        let n = decorators.len();
        let mut prev = inner;
        let mut k: usize = 0;
        while k < n
            invariant
                0 <= k <= n,
                n == decorators@.len(),
                self.wf(),
                sv == sig_view(*sig),
                es == model@.enums,
                prev@ == prev_name(sv, k as nat),
                out@ == t1 + wrappers_go(sv, decorators@, k as nat, allow_memoize, es, s1).text,
                self.state() == wrappers_go(sv, decorators@, k as nat, allow_memoize, es, s1).state,
            decreases n - k,
        {
            let mut wname = sig.name.clone();
            push_str(&mut wname, "__decor");
            push_decimal(&mut wname, k);
            let w = self.emit_decorator_wrapper(
                model,
                sig,
                wname.as_str(),
                prev.as_str(),
                &decorators[n - 1 - k],
                allow_memoize,
            );
            push_str(&mut out, "\n\n");
            push_str(&mut out, w.as_str());
            prev = wname;
            k = k + 1;
        }
        push_str(&mut out, "\n\n");
        let f = forward_text(sig, sig.name.as_str(), prev.as_str());
        push_str(&mut out, f.as_str());
        out
    }

    pub(crate) fn emit_function(&mut self, model: &SemanticModel, f: &FnDecl) -> (r: String)
        requires
            old(self).wf(),
        ensures
            final(self).wf(),
            r@ == function_go(*f, model@.enums, old(self).state()).text,
            final(self).state() == function_go(*f, model@.enums, old(self).state()).state,
    {
        let is_main = str_eq(f.name.as_str(), "main") && match f.ret {
            ReturnType::ErrorOnly => true,
            _ => false,
        };
        let name = if is_main {
            self.set_needs_main();
            str_to_string("mainWarp")
        } else {
            f.name.clone()
        };
        let sig = FnSignature {
            name,
            type_params: crate::sema::model::copy_strings(&f.type_params),
            params: crate::sema::model::copy_params(&f.params),
            ret: crate::sema::model::copy_return(&f.ret),
            receiver: None,
        };
        assert(sig_view(sig) == function_sig(*f));
        self.emit_function_like(model, &sig, &f.body, &f.decorators, true)
    }

    fn emit_method(&mut self, model: &SemanticModel, target: &String, md: &MethodDecl) -> (r: String)
        requires
            old(self).wf(),
        ensures
            final(self).wf(),
            r@ == function_like_go(
                method_sig(target@, *md),
                md.body.stmts@,
                md.decorators@,
                false,
                model@.enums,
                old(self).state(),
            ).text,
            final(self).state() == function_like_go(
                method_sig(target@, *md),
                md.body.stmts@,
                md.decorators@,
                false,
                model@.enums,
                old(self).state(),
            ).state,
    {
        let t = trim_string(target.as_str());
        let receiver_type = match md.receiver {
            ReceiverKind::Value => t,
            ReceiverKind::Pointer => {
                let mut r = str_to_string("*");
                push_str(&mut r, t.as_str());
                r
            },
        };
        let sig = FnSignature {
            name: md.name.clone(),
            type_params: crate::sema::model::copy_strings(&md.type_params),
            params: crate::sema::model::copy_params(&md.params),
            ret: crate::sema::model::copy_return(&md.ret),
            receiver: Some((str_to_string("self"), receiver_type)),
        };
        assert(sig_view(sig) == method_sig(target@, *md));
        self.emit_function_like(model, &sig, &md.body, &md.decorators, false)
    }

    pub(crate) fn emit_impl_block(&mut self, model: &SemanticModel, b: &ImplBlock) -> (r: String)
        requires
            old(self).wf(),
        ensures
            final(self).wf(),
            r@ == methods_go(b.target@, b.methods@, model@.enums, old(self).state()).text,
            final(self).state() == methods_go(
                b.target@,
                b.methods@,
                model@.enums,
                old(self).state(),
            ).state,
    {
        let ghost s0 = self.state();
        let ghost es = model@.enums;
        let mut out = String::new();
        let mut i: usize = 0;
        assert(b.methods@.take(0) =~= Seq::<MethodDecl>::empty());
        while i < b.methods.len()
            invariant
                0 <= i <= b.methods@.len(),
                self.wf(),
                es == model@.enums,
                out@ == methods_go(b.target@, b.methods@.take(i as int), es, s0).text,
                self.state() == methods_go(b.target@, b.methods@.take(i as int), es, s0).state,
            decreases b.methods@.len() - i,
        {
            assert(b.methods@.take(i + 1).drop_last() =~= b.methods@.take(i as int));
            assert(b.methods@.take(i + 1).last() == b.methods@[i as int]);
            let ghost before = out@;
            if !out.as_str().is_empty() {
                push_str(&mut out, "\n\n");
            }
            let m = self.emit_method(model, &b.target, &b.methods[i]);
            push_str(&mut out, m.as_str());
            assert(out@ =~= before + (if before.len() > 0 {
                "\n\n"@
            } else {
                Seq::<char>::empty()
            }) + m@);
            i = i + 1;
        }
        assert(b.methods@.take(b.methods@.len() as int) =~= b.methods@);
        out
    }
}

} // verus!
